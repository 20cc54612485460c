//! Laws of text: the hash, camel case, percent escapes and the search for aliases.

use vstd::arithmetic::power::pow;
use vstd::prelude::*;

use crate::common;
use crate::json::Text;
use crate::text;
use crate::yaml;

verus! {

// --- hash ------------------------------------------------------------------

/// The number of UTF-16 code units of a character.
pub open spec fn char_units(c: char) -> nat {
    if (c as int) < 0x1_0000 {
        1
    } else {
        2
    }
}

/// The number of UTF-16 code units of the characters from position `i` on.
pub open spec fn units_from(s: Text, i: int) -> nat
    decreases s.len() - i,
{
    if i >= s.len() {
        0
    } else {
        char_units(s[i]) + units_from(s, i + 1)
    }
}

/// Integers that differ by a multiple of `2^32` wrap to the same integer.
proof fn wraps_alike(x: int, y: int, q: int)
    requires
        x == y + 0x1_0000_0000 * q,
    ensures
        common::wrapped(x) == common::wrapped(y),
{
    assert((y + 0x8000_0000 + 0x1_0000_0000 * q) % 0x1_0000_0000 == (y + 0x8000_0000)
        % 0x1_0000_0000) by {
        vstd::arithmetic::div_mod::lemma_mod_multiples_vanish(
            q,
            y + 0x8000_0000,
            0x1_0000_0000,
        );
    }
}

/// What a wrapped integer differs by, in multiples of `2^32`.
spec fn turns(x: int) -> int {
    -((x + 0x8000_0000) / 0x1_0000_0000)
}

proof fn wrapped_turns(x: int)
    ensures
        common::wrapped(x) == x + 0x1_0000_0000 * turns(x),
        -0x8000_0000 <= common::wrapped(x) < 0x8000_0000,
{
}

/// The hash after one character is linear in the hash before it, up to turns.
proof fn hash_char_is_linear(h: int, c: char) -> (q: int)
    ensures
        common::hash_char(h, c) == h * pow(31, char_units(c)) + common::hash_char(0, c)
            + 0x1_0000_0000 * q,
        -0x8000_0000 <= common::hash_char(h, c) < 0x8000_0000,
{
    reveal_with_fuel(pow, 3);
    let u = c as int;
    if u < 0x1_0000 {
        wrapped_turns(31 * h + u);
        wrapped_turns(31 * 0 + u);
        assert(pow(31, 1) == 31);
        turns(31 * h + u) - turns(u)
    } else {
        let a = 0xD800 + (u - 0x1_0000) / 0x400;
        let b = 0xDC00 + (u - 0x1_0000) % 0x400;
        let h1 = common::hash_unit(h, a);
        let z1 = common::hash_unit(0, a);
        wrapped_turns(31 * h + a);
        wrapped_turns(31 * 0 + a);
        wrapped_turns(31 * h1 + b);
        wrapped_turns(31 * z1 + b);
        assert(pow(31, 2) == 961);
        31 * turns(31 * h + a) - 31 * turns(a) + turns(31 * h1 + b) - turns(31 * z1 + b)
    }
}

/// The hash of the characters from position `i` on is linear in the hash before them,
/// up to turns.
proof fn hash_is_linear(s: Text, i: int, h: int) -> (q: int)
    requires
        0 <= i <= s.len(),
    ensures
        common::hash_from(s, i, h) == h * pow(31, units_from(s, i)) + common::hash_from(s, i, 0)
            + 0x1_0000_0000 * q,
    decreases s.len() - i,
{
    reveal(pow);
    if i < s.len() {
        let c = s[i];
        let p = pow(31, units_from(s, i + 1));
        let k = pow(31, char_units(c));
        let hc = common::hash_char(h, c);
        let zc = common::hash_char(0, c);
        let f = common::hash_from(s, i + 1, 0);
        let q0 = hash_char_is_linear(h, c);
        let q1 = hash_is_linear(s, i + 1, hc);
        let q2 = hash_is_linear(s, i + 1, zc);
        vstd::arithmetic::power::lemma_pow_adds(31, char_units(c), units_from(s, i + 1));
        let m: int = 0x1_0000_0000;
        assert(hc * p + f + m * q1 == h * (k * p) + (zc * p + f + m * q2) + m * (q0 * p + q1
            - q2)) by (nonlinear_arith)
            requires
                hc == h * k + zc + m * q0,
        ;
        q0 * p + q1 - q2
    } else {
        assert(units_from(s, i) == 0);
        assert(pow(31, 0) == 1);
        0
    }
}

/// The hash goes on with the second of two texts.
proof fn hash_goes_on(a: Text, b: Text, i: int, h: int)
    requires
        0 <= i <= b.len(),
    ensures
        common::hash_from(a + b, a.len() + i, h) == common::hash_from(b, i, h),
    decreases b.len() - i,
{
    if i < b.len() {
        assert((a + b)[a.len() + i] == b[i]);
        hash_goes_on(a, b, i + 1, common::hash_char(h, b[i]));
    }
}

proof fn hash_of_first(a: Text, b: Text, i: int, h: int)
    requires
        0 <= i <= a.len(),
    ensures
        common::hash_from(a + b, i, h) == common::hash_from(
            a + b,
            a.len() as int,
            common::hash_from(a, i, h),
        ),
    decreases a.len() - i,
{
    if i < a.len() {
        assert((a + b)[i] == a[i]);
        hash_of_first(a, b, i + 1, common::hash_char(h, a[i]));
    }
}

/// A hash is a signed 32-bit integer.
proof fn hash_is_small(s: Text, i: int, h: int)
    requires
        -0x8000_0000 <= h < 0x8000_0000,
    ensures
        -0x8000_0000 <= common::hash_from(s, i, h) < 0x8000_0000,
    decreases s.len() - i,
{
    if i < s.len() {
        let q = hash_char_is_linear(h, s[i]);
        hash_is_small(s, i + 1, common::hash_char(h, s[i]));
    }
}

/// The hash of two texts in a row follows from their hashes and the number of UTF-16
/// code units of the second, modulo `2^32`.
pub proof fn hash_of_two(a: Text, b: Text)
    ensures
        common::hashed(a + b) == common::wrapped(
            common::hashed(a) * pow(31, units_from(b, 0)) + common::hashed(b),
        ),
        -0x8000_0000 <= common::hashed(a + b) < 0x8000_0000,
{
    let h = common::hashed(a);
    hash_of_first(a, b, 0, 0);
    hash_goes_on(a, b, 0, h);
    let q = hash_is_linear(b, 0, h);
    hash_is_small(a + b, 0, 0);
    let r = common::hashed(a + b);
    wraps_alike(r, h * pow(31, units_from(b, 0)) + common::hashed(b), q);
    assert(common::wrapped(r) == r);
}

/// The hash of one UTF-16 code unit is that unit.
pub proof fn hash_of_unit(c: char)
    requires
        (c as int) < 0x1_0000,
    ensures
        common::hashed(seq![c]) == c as int,
{
    reveal_with_fuel(common::hash_from, 2);
}

// --- camel case ------------------------------------------------------------

/// The positions from `i` on that hold no separator.
pub open spec fn kept_from(s: Text, i: int) -> Seq<int>
    decreases s.len() - i,
{
    if i >= s.len() {
        Seq::empty()
    } else if common::separator(s[i]) {
        kept_from(s, i + 1)
    } else {
        seq![i] + kept_from(s, i + 1)
    }
}

/// Whether a position directly follows a separator.
pub open spec fn follows_separator(s: Text, i: int) -> bool {
    0 < i <= s.len() && common::separator(s[i - 1])
}

/// Whether `c` is an ASCII uppercase letter.
pub open spec fn ascii_uppercase_letter(c: char) -> bool {
    'A' <= c && c <= 'Z'
}

/// What camel casing makes of the character at position `i` of an ASCII text.
spec fn hump(s: Text, i: int) -> char {
    if follows_separator(s, i) {
        text::ascii_upper(text::ascii_lower(s[i]))
    } else {
        text::ascii_lower(s[i])
    }
}

proof fn kept_are_inside(s: Text, i: int)
    requires
        0 <= i,
    ensures
        forall|k: int|
            0 <= k < kept_from(s, i).len() ==> i <= #[trigger] kept_from(s, i)[k] < s.len()
                && !common::separator(s[kept_from(s, i)[k]]),
    decreases s.len() - i,
{
    if i < s.len() {
        kept_are_inside(s, i + 1);
        let rest = kept_from(s, i + 1);
        if !common::separator(s[i]) {
            let all = seq![i] + rest;
            assert forall|k: int| 0 <= k < all.len() implies i <= #[trigger] all[k] < s.len()
                && !common::separator(s[all[k]]) by {
                if k > 0 {
                    assert(all[k] == rest[k - 1]);
                }
            }
        }
    }
}

proof fn camel_is_humps(s: Text, l: Text, i: int)
    requires
        0 <= i,
        text::all_ascii(s),
        l == s.map_values(|c: char| text::ascii_lower(c)),
        i < s.len() && follows_separator(s, i) ==> common::separator(s[i]),
    ensures
        common::camel_from(l, i) == kept_from(s, i).map_values(|p: int| hump(s, p)),
    decreases s.len() - i,
{
    let f = |p: int| hump(s, p);
    if i >= s.len() {
        assert(common::camel_from(l, i) =~= kept_from(s, i).map_values(f));
    } else {
        assert(text::ascii(s[i]));
        assert(l[i] == text::ascii_lower(s[i]));
        assert(common::separator(l[i]) == common::separator(s[i]));
        if !common::separator(s[i]) {
            camel_is_humps(s, l, i + 1);
            assert(seq![l[i]] + kept_from(s, i + 1).map_values(f) =~= kept_from(s, i).map_values(f));
        } else if i + 1 < s.len() {
            assert(text::ascii(s[i + 1]));
            assert(l[i + 1] == text::ascii_lower(s[i + 1]));
            assert(common::separator(l[i + 1]) == common::separator(s[i + 1]));
            if !common::separator(s[i + 1]) {
                camel_is_humps(s, l, i + 2);
                assert(kept_from(s, i) == kept_from(s, i + 1));
                assert(kept_from(s, i + 1) == seq![i + 1] + kept_from(s, i + 2));
                assert(text::uppercase(l[i + 1]) == seq![hump(s, i + 1)]);
                assert(seq![hump(s, i + 1)] + kept_from(s, i + 2).map_values(f)
                    =~= kept_from(s, i).map_values(f));
            } else {
                camel_is_humps(s, l, i + 1);
            }
        } else {
            camel_is_humps(s, l, i + 1);
        }
    }
}

/// Camel casing of an ASCII text keeps the characters that are no separators, in
/// their order and whatever their case, and makes a letter uppercase exactly when it
/// directly follows a separator.
pub proof fn camel_case_of_ascii(s: Text)
    requires
        text::all_ascii(s),
    ensures
        ({
            let r = common::camel_cased(s);
            let kept = kept_from(s, 0);
            &&& r.len() == kept.len()
            &&& forall|k: int|
                0 <= k < r.len() ==> {
                    &&& 0 <= kept[k] < s.len()
                    &&& !common::separator(#[trigger] r[k])
                    &&& text::ascii_lower(r[k]) == text::ascii_lower(s[kept[k]])
                    &&& ascii_uppercase_letter(r[k]) == (text::ascii_letter(s[kept[k]])
                        && follows_separator(s, kept[k]))
                }
        }),
{
    let l = s.map_values(|c: char| text::ascii_lower(c));
    camel_is_humps(s, l, 0);
    kept_are_inside(s, 0);
    let r = common::camel_cased(s);
    let kept = kept_from(s, 0);
    assert(r =~= kept.map_values(|p: int| hump(s, p)));
    assert forall|k: int| 0 <= k < r.len() implies {
        &&& 0 <= kept[k] < s.len()
        &&& !common::separator(#[trigger] r[k])
        &&& text::ascii_lower(r[k]) == text::ascii_lower(s[kept[k]])
        &&& ascii_uppercase_letter(r[k]) == (text::ascii_letter(s[kept[k]]) && follows_separator(
            s,
            kept[k],
        ))
    } by {
        assert(r[k] == hump(s, kept[k]));
        assert(text::ascii(s[kept[k]]));
    }
}

/// Humps that an ASCII text has already are lost: its uppercase form has the same camel
/// case form.
pub proof fn camel_case_loses_humps(s: Text)
    requires
        text::all_ascii(s),
    ensures
        common::camel_cased(s.map_values(|c: char| text::ascii_upper(c))) == common::camel_cased(s),
{
    let t = s.map_values(|c: char| text::ascii_upper(c));
    assert forall|k: int| 0 <= k < t.len() implies text::ascii(#[trigger] t[k]) by {
        assert(text::ascii(s[k]));
    }
    let a = s.map_values(|c: char| text::ascii_lower(c));
    let b = t.map_values(|c: char| text::ascii_lower(c));
    assert forall|k: int| 0 <= k < s.len() implies #[trigger] a[k] == b[k] by {
        assert(text::ascii(s[k]));
    }
    assert(a =~= b);
}

// --- percent escapes -------------------------------------------------------

/// Bytes without a percent escape decode to themselves.
proof fn decode_unescaped(bytes: Seq<u8>, i: int)
    requires
        0 <= i <= bytes.len(),
        forall|k: int| 0 <= k < bytes.len() ==> !#[trigger] common::escape_at(bytes, k),
    ensures
        common::decode_from(bytes, i) == bytes.skip(i),
    decreases bytes.len() - i,
{
    if i < bytes.len() {
        decode_unescaped(bytes, i + 1);
        assert(!common::escape_at(bytes, i));
        assert(seq![bytes[i]] + bytes.skip(i + 1) =~= bytes.skip(i));
    } else {
        assert(bytes.skip(i) =~= Seq::empty());
    }
}

/// A text stays as it is where each `%` of it, if there is any, is not followed by two
/// hexadecimal digits.
pub proof fn stray_percents_stay(s: Text)
    requires
        forall|k: int|
            0 <= k < vstd::utf8::encode_utf8(s).len() ==> !#[trigger] common::escape_at(
                vstd::utf8::encode_utf8(s),
                k,
            ),
    ensures
        common::uri_decoded(s) == s,
{
    let bytes = vstd::utf8::encode_utf8(s);
    decode_unescaped(bytes, 0);
    assert(bytes.skip(0) =~= bytes);
    vstd::utf8::encode_utf8_valid_utf8(s);
    vstd::utf8::encode_utf8_decode_utf8(s);
}

/// A text without `%` has no byte of it.
proof fn no_percent_byte(s: Text)
    requires
        forall|k: int| 0 <= k < s.len() ==> #[trigger] s[k] != '%',
    ensures
        forall|k: int|
            0 <= k < vstd::utf8::encode_utf8(s).len() ==> #[trigger] vstd::utf8::encode_utf8(s)[k]
                != 0x25,
    decreases s.len(),
{
    if s.len() > 0 {
        let bytes = vstd::utf8::encode_utf8(s);
        let first = vstd::utf8::encode_scalar(s[0] as u32);
        let rest = s.drop_first();
        assert forall|k: int| 0 <= k < rest.len() implies #[trigger] rest[k] != '%' by {
            assert(rest[k] == s[k + 1]);
        }
        no_percent_byte(rest);
        vstd::utf8::encode_utf8_first_scalar(s);
        vstd::utf8::char_is_scalar(s[0]);
        vstd::utf8::char_u32_cast(s[0], s[0] as u32);
        assert(s[0] != '%');
        assert(0x25u8 & 0x7f == 0x25u8) by (bit_vector);
        assert forall|k: int| 0 <= k < bytes.len() implies #[trigger] bytes[k] != 0x25 by {
            if k < first.len() {
                if k == 0 && bytes[0] == 0x25 {
                    assert(vstd::utf8::decode_first_scalar(bytes) == 0x25);
                    assert(s[0] as u32 == 0x25);
                }
            } else {
                assert(bytes[k] == vstd::utf8::encode_utf8(rest)[k - first.len()]);
            }
        }
    }
}

/// Any text without `%` stays as it is. A `+` is kept.
pub proof fn decoding_keeps_other_texts(s: Text)
    requires
        forall|k: int| 0 <= k < s.len() ==> #[trigger] s[k] != '%',
    ensures
        common::uri_decoded(s) == s,
{
    no_percent_byte(s);
    let bytes = vstd::utf8::encode_utf8(s);
    assert forall|k: int| 0 <= k < bytes.len() implies !#[trigger] common::escape_at(
        bytes,
        k,
    ) by {
        assert(bytes[k] != 0x25);
    }
    stray_percents_stay(s);
}

/// Whether `c` is an uppercase hexadecimal digit.
pub open spec fn upper_hex(c: char) -> bool {
    text::ascii_digit(c) || ('A' <= c && c <= 'F')
}

/// Whether a character stands for itself in an encoded text.
pub open spec fn unreserved(c: char) -> bool {
    text::ascii_letter(c) || text::ascii_digit(c) || c == '-' || c == '_' || c == '.' || c == '!'
        || c == '~' || c == '*' || c == '\'' || c == '(' || c == ')'
}

/// Whether the character at position `i` is one that stands for itself, or a `%` before
/// two uppercase hexadecimal digits.
pub open spec fn in_alphabet(s: Text, i: int) -> bool {
    unreserved(s[i]) || (s[i] == '%' && i + 2 < s.len() && upper_hex(s[i + 1]) && upper_hex(
        s[i + 2],
    ))
}

proof fn encoded_alphabet(bytes: Seq<u8>, i: int)
    requires
        0 <= i <= bytes.len(),
    ensures
        forall|k: int|
            0 <= k < common::encode_from(bytes, i).len() ==> #[trigger] in_alphabet(
                common::encode_from(bytes, i),
                k,
            ),
    decreases bytes.len() - i,
{
    if i < bytes.len() {
        encoded_alphabet(bytes, i + 1);
        let b = bytes[i];
        let e = common::encode_byte(b);
        let rest = common::encode_from(bytes, i + 1);
        let all = e + rest;
        if !common::kept(b) {
            let hi = common::hex_digit((b / 16) as int);
            let lo = common::hex_digit((b % 16) as int);
            assert(upper_hex(hi) && upper_hex(lo));
            assert(all[0] == '%' && all[1] == hi && all[2] == lo);
        } else {
            assert(all[0] == b as char);
        }
        assert forall|k: int| 0 <= k < all.len() implies #[trigger] in_alphabet(all, k) by {
            if k >= e.len() {
                let q = k - e.len();
                assert(in_alphabet(rest, q));
                assert(all[k] == rest[q]);
                if q + 1 < rest.len() {
                    assert(all[k + 1] == rest[q + 1]);
                }
                if q + 2 < rest.len() {
                    assert(all[k + 2] == rest[q + 2]);
                }
            }
        }
    }
}

/// An encoded text holds ASCII letters, digits, the marks that stand for themselves, and
/// each `%` in it stands before two uppercase hexadecimal digits.
pub proof fn encoded_text_alphabet(s: Text)
    ensures
        forall|k: int|
            0 <= k < common::uri_encoded(s).len() ==> #[trigger] in_alphabet(
                common::uri_encoded(s),
                k,
            ),
{
    encoded_alphabet(vstd::utf8::encode_utf8(s), 0);
}

// --- aliases ---------------------------------------------------------------

/// Whether `name` stands behind `marker` in a text.
pub open spec fn is_marked(s: Text, marker: char, name: Text) -> bool {
    text::occurs(s, seq![marker] + name)
}

/// Whether a text is a name of an anchor.
pub open spec fn is_anchor_name(name: Text) -> bool {
    name.len() > 0 && forall|i: int| 0 <= i < name.len() ==> yaml::anchor_char(#[trigger] name[i])
}

proof fn found_where_it_stands(s: Text, pat: Text, i: int, k: int)
    requires
        0 <= i <= k,
        text::stands_at(s, pat, k),
    ensures
        text::find_from(s, pat, i) is Some,
    decreases k - i,
{
    if i < k && !text::stands_at(s, pat, i) {
        found_where_it_stands(s, pat, i + 1, k);
    }
}

proof fn stands_where_found(s: Text, pat: Text, i: int)
    requires
        0 <= i,
    ensures
        text::find_from(s, pat, i) matches Some(k) ==> i <= k && text::stands_at(s, pat, k),
    decreases s.len() + 1 - i,
{
    if i <= s.len() && !text::stands_at(s, pat, i) {
        stands_where_found(s, pat, i + 1);
    }
}

/// What occurs in a part of a text occurs in the text.
proof fn occurs_in_whole(s: Text, from: int, to: int, pat: Text)
    requires
        0 <= from <= to <= s.len(),
        text::occurs(s.subrange(from, to), pat),
    ensures
        text::occurs(s, pat),
{
    let part = s.subrange(from, to);
    stands_where_found(part, pat, 0);
    let k = text::find_spec(part, pat)->0;
    assert(s.subrange(from + k, from + k + pat.len()) =~= part.subrange(k, k + pat.len()));
    found_where_it_stands(s, pat, 0, from + k);
}

proof fn name_end_bounds(line: Text, i: int)
    requires
        0 <= i <= line.len(),
    ensures
        i <= yaml::name_end(line, i) <= line.len(),
        forall|k: int|
            i <= k < yaml::name_end(line, i) ==> yaml::anchor_char(#[trigger] line[k]),
    decreases line.len() - i,
{
    if i < line.len() && yaml::anchor_char(line[i]) {
        name_end_bounds(line, i + 1);
    }
}

proof fn tokens_are_marked(line: Text, marker: char, i: int)
    requires
        0 <= i,
    ensures
        forall|q: int|
            0 <= q < yaml::tokens_from(line, marker, i).len() ==> is_anchor_name(
                #[trigger] yaml::tokens_from(line, marker, i)[q],
            ) && is_marked(line, marker, yaml::tokens_from(line, marker, i)[q]),
    decreases line.len() - i,
{
    let r = yaml::tokens_from(line, marker, i);
    if i < line.len() {
        if line[i] == marker && yaml::token_may_start(line, i) {
            let j = yaml::name_end(line, i + 1);
            name_end_bounds(line, i + 1);
            if j <= i + 1 {
                tokens_are_marked(line, marker, i + 1);
                assert(r == yaml::tokens_from(line, marker, i + 1));
            } else {
                tokens_are_marked(line, marker, j);
                let name = line.subrange(i + 1, j);
                let rest = yaml::tokens_from(line, marker, j);
                let all = seq![name] + rest;
                assert(r == all);
                assert forall|k: int| 0 <= k < name.len() implies yaml::anchor_char(
                    #[trigger] name[k],
                ) by {
                    assert(name[k] == line[i + 1 + k]);
                }
                assert(line.subrange(i, i + (seq![marker] + name).len()) =~= seq![marker] + name);
                found_where_it_stands(line, seq![marker] + name, 0, i);
                assert forall|q: int| 0 <= q < all.len() implies is_anchor_name(
                    #[trigger] all[q],
                ) && is_marked(line, marker, all[q]) by {
                    if q > 0 {
                        assert(all[q] == rest[q - 1]);
                    }
                }
            }
        } else {
            tokens_are_marked(line, marker, i + 1);
            assert(r == yaml::tokens_from(line, marker, i + 1));
        }
    }
}

proof fn comment_start_bounds(line: Text, i: int, a: bool, b: bool)
    requires
        0 <= i <= line.len(),
    ensures
        i <= yaml::comment_start(line, i, a, b) <= line.len(),
    decreases line.len() - i,
{
    if i < line.len() {
        comment_start_bounds(line, i + 1, !a, b);
        comment_start_bounds(line, i + 1, a, !b);
        comment_start_bounds(line, i + 1, a, b);
    }
}

/// Each piece of a text is a part of it.
proof fn pieces_are_parts(s: Text, c: char, start: int, i: int, q: int)
    requires
        0 <= start <= i <= s.len(),
        0 <= q < text::split_from(s, c, start, i).len(),
    ensures
        exists|from: int, to: int|
            0 <= from <= to <= s.len() && text::split_from(s, c, start, i)[q]
                == #[trigger] s.subrange(from, to),
    decreases s.len() - i,
{
    if i >= s.len() {
        assert(text::split_from(s, c, start, i)[q] == s.subrange(start, s.len() as int));
    } else if s[i] == c {
        if q == 0 {
            assert(text::split_from(s, c, start, i)[q] == s.subrange(start, i));
        } else {
            pieces_are_parts(s, c, i + 1, i + 1, q - 1);
            assert(text::split_from(s, c, start, i)[q] == text::split_from(
                s,
                c,
                i + 1,
                i + 1,
            )[q - 1]);
        }
    } else {
        pieces_are_parts(s, c, start, i + 1, q);
    }
}

proof fn names_are_marked(s: Text, marker: char, i: int, name: Text)
    requires
        0 <= i,
        yaml::names_on(text::pieces(s, '\n'), marker, i).contains(name),
    ensures
        is_anchor_name(name),
        is_marked(s, marker, name),
    decreases text::pieces(s, '\n').len() - i,
{
    let lines = text::pieces(s, '\n');
    if i < lines.len() {
        let line = yaml::uncommented(lines[i]);
        let here = yaml::tokens_from(line, marker, 0);
        let later = yaml::names_on(lines, marker, i + 1);
        let all = here + later;
        let q = choose|q: int| 0 <= q < all.len() && all[q] == name;
        if q < here.len() {
            assert(here[q] == name);
            tokens_are_marked(line, marker, 0);
            comment_start_bounds(lines[i], 0, false, false);
            let end = yaml::comment_start(lines[i], 0, false, false);
            assert(line =~= lines[i].subrange(0, end));
            occurs_in_whole(lines[i], 0, end, seq![marker] + name);
            pieces_are_parts(s, '\n', 0, 0, i);
            let (from, to) = choose|from: int, to: int|
                0 <= from <= to <= s.len() && lines[i] == #[trigger] s.subrange(from, to);
            occurs_in_whole(s, from, to, seq![marker] + name);
        } else {
            assert(later[q - here.len()] == name);
            names_are_marked(s, marker, i + 1, name);
        }
    }
}

/// A match names an anchor and an alias that stand in the text.
pub proof fn match_names_anchor(s: Text)
    requires
        yaml::anchored(s),
    ensures
        exists|name: Text|
            #[trigger] is_anchor_name(name) && is_marked(s, '&', name) && is_marked(s, '*', name),
{
    let lines = text::pieces(s, '\n');
    let name = choose|name: Text| #[trigger]
        yaml::names_on(lines, '*', 0).contains(name) && yaml::names_on(lines, '&', 0).contains(
            name,
        );
    names_are_marked(s, '*', 0, name);
    names_are_marked(s, '&', 0, name);
}

/// The pieces behind a separator are those of the text behind it.
proof fn later_pieces(a: Text, u: Text, c: char, start: int, i: int)
    requires
        0 <= start <= i <= u.len(),
    ensures
        text::split_from(a + u, c, a.len() + start, a.len() + i) == text::split_from(
            u,
            c,
            start,
            i,
        ),
    decreases u.len() - i,
{
    let s = a + u;
    if i < u.len() {
        assert(s[a.len() + i] == u[i]);
        if u[i] == c {
            later_pieces(a, u, c, i + 1, i + 1);
            assert(s.subrange(a.len() + start, a.len() + i) =~= u.subrange(start, i));
        } else {
            later_pieces(a, u, c, start, i + 1);
        }
    } else {
        assert(s.subrange(a.len() + start, s.len() as int) =~= u.subrange(start, u.len() as int));
    }
}

/// The pieces of two texts around a separator are those of the one and of the other.
proof fn pieces_of_two(t: Text, u: Text, c: char, start: int, i: int)
    requires
        0 <= start <= i <= t.len(),
    ensures
        text::split_from(t + seq![c] + u, c, start, i) == text::split_from(t, c, start, i)
            + text::pieces(u, c),
    decreases t.len() - i,
{
    let a = t + seq![c];
    let s = a + u;
    if i < t.len() {
        assert(s[i] == t[i]);
        if t[i] == c {
            pieces_of_two(t, u, c, i + 1, i + 1);
            assert(s.subrange(start, i) =~= t.subrange(start, i));
            assert(seq![t.subrange(start, i)] + (text::split_from(t, c, i + 1, i + 1)
                + text::pieces(u, c)) =~= (seq![t.subrange(start, i)] + text::split_from(
                t,
                c,
                i + 1,
                i + 1,
            )) + text::pieces(u, c));
        } else {
            pieces_of_two(t, u, c, start, i + 1);
        }
    } else {
        assert(s[i] == c);
        assert(s.subrange(start, i) =~= t.subrange(start, t.len() as int));
        later_pieces(a, u, c, 0, 0);
    }
}

proof fn names_on_more(a: Seq<Text>, b: Seq<Text>, marker: char, i: int, name: Text)
    requires
        0 <= i,
        yaml::names_on(a, marker, i).contains(name),
    ensures
        yaml::names_on(a + b, marker, i).contains(name),
    decreases a.len() - i,
{
    if i < a.len() {
        assert((a + b)[i] == a[i]);
        let here = yaml::tokens_from(yaml::uncommented(a[i]), marker, 0);
        let later = yaml::names_on(a, marker, i + 1);
        let more = yaml::names_on(a + b, marker, i + 1);
        let q = choose|q: int| 0 <= q < (here + later).len() && (here + later)[q] == name;
        if q < here.len() {
            assert((here + more)[q] == name);
        } else {
            assert(later[q - here.len()] == name);
            names_on_more(a, b, marker, i + 1, name);
            let k = choose|k: int| 0 <= k < more.len() && more[k] == name;
            assert((here + more)[here.len() + k] == name);
        }
    }
}

/// Later lines never undo a match.
pub proof fn later_lines_keep_match(t: Text, u: Text)
    requires
        yaml::anchored(t),
    ensures
        yaml::anchored(t + seq!['\n'] + u),
{
    let a = text::pieces(t, '\n');
    let b = text::pieces(u, '\n');
    pieces_of_two(t, u, '\n', 0, 0);
    let name = choose|name: Text| #[trigger]
        yaml::names_on(a, '*', 0).contains(name) && yaml::names_on(a, '&', 0).contains(name);
    names_on_more(a, b, '*', 0, name);
    names_on_more(a, b, '&', 0, name);
    let lines = text::pieces(t + seq!['\n'] + u, '\n');
    assert(lines == a + b);
    assert(yaml::names_on(lines, '*', 0).contains(name));
}

} // verus!
