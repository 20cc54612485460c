//! Name and text helpers, the 32-bit hash, and the constant tables.
//!
//! These are the small helpers the converter relies on: name sanitisation, a
//! JavaScript-compatible string hash, camel casing, percent escapes, and the
//! property name tables that drive parameter and schema fixups.

use vstd::prelude::*;

use crate::json::{self, Json, Num, Text};
use crate::text;
use crate::number::{self, Parts};
use crate::value::{self, JsonValue};

verus! {

/// Properties that move from a 2.0 parameter or header onto its schema.
pub const PARAMETER_TYPE_PROPERTIES: [&'static str; 17] = [
    "format",
    "minimum",
    "maximum",
    "exclusiveMinimum",
    "exclusiveMaximum",
    "minLength",
    "maxLength",
    "multipleOf",
    "minItems",
    "maxItems",
    "uniqueItems",
    "minProperties",
    "maxProperties",
    "additionalProperties",
    "pattern",
    "enum",
    "default",
];

/// Array-shaped schema keywords.
pub const ARRAY_PROPERTIES: [&'static str; 4] = ["items", "minItems", "maxItems", "uniqueItems"];

/// HTTP methods recognised as operation keys on a path item.
pub const HTTP_METHODS: [&'static str; 8] = [
    "get",
    "post",
    "put",
    "delete",
    "patch",
    "head",
    "options",
    "trace",
];

// --- names -----------------------------------------------------------------

/// The text with the first `from` replaced by `to`.
pub open spec fn first_replaced(s: Text, from: Text, to: Text) -> Text {
    match text::find_spec(s, from) {
        Some(i) => s.take(i) + to + s.skip(i + from.len()),
        None => s,
    }
}

/// Replace the first occurrence of `from` with `to`.
pub fn replace_first(s: &str, from: &str, to: &str) -> (r: String)
    ensures
        r@ == first_replaced(s@, from@, to@),
{
    match text::find(s, from) {
        Some(i) => {
            let n: usize = from.unicode_len();
            let total: usize = s.unicode_len();
            assert(i + n <= total);
            text::cat3(text::take(s, i).as_str(), to, text::skip(s, i + n).as_str())
        },
        None => s.to_owned(),
    }
}

/// Whether a component name may hold `c`.
pub open spec fn name_char(c: char) -> bool {
    text::ascii_letter(c) || text::ascii_digit(c) || c == '_' || c == '-' || c == '.'
}

/// The text from position `i` on, with each run of other characters turned into
/// one `_`. `in_run` says that the run before `i` has its `_` already.
pub open spec fn scrub_from(s: Text, i: int, in_run: bool) -> Text
    decreases s.len() - i,
{
    if i >= s.len() {
        Seq::empty()
    } else if name_char(s[i]) {
        seq![s[i]] + scrub_from(s, i + 1, false)
    } else if in_run {
        scrub_from(s, i + 1, true)
    } else {
        seq!['_'] + scrub_from(s, i + 1, true)
    }
}

/// The text with each run of characters outside `[A-Za-z0-9_\-.]` turned into
/// one `_`.
pub open spec fn scrubbed(s: Text) -> Text {
    scrub_from(s, 0, false)
}

/// Collapse every run of disallowed characters to one `_`.
///
/// Allowed characters are ASCII letters, digits, `_`, `-`, and `.`.
pub fn scrub_first_component(s: &str) -> (r: String)
    ensures
        r@ == scrubbed(s@),
{
    let cs = text::to_chars(s);
    let mut out = String::new();
    let mut in_run = false;
    let mut i: usize = 0;
    while i < cs.len()
        invariant
            i <= cs@.len(),
            cs@ == s@,
            scrubbed(s@) == out@ + scrub_from(s@, i as int, in_run),
        decreases cs@.len() - i,
    {
        let c: char = cs[i];
        let ghost before = out@;
        let allowed = text::is_ascii_letter(c) || text::is_ascii_digit(c) || c == '_' || c == '-'
            || c == '.';
        if allowed {
            out.push(c);
            in_run = false;
            assert(before + (seq![c] + scrub_from(s@, i + 1, false)) =~= before.push(c)
                + scrub_from(s@, i + 1, false));
        } else if !in_run {
            out.push('_');
            in_run = true;
            assert(before + (seq!['_'] + scrub_from(s@, i + 1, true)) =~= before.push('_')
                + scrub_from(s@, i + 1, true));
        }
        i += 1;
    }
    assert(out@ + scrub_from(s@, i as int, in_run) =~= out@);
    out
}

/// Where the first path segment ends.
pub open spec fn first_segment_len(s: Text) -> int {
    match text::find_spec(s, seq!['/']) {
        Some(i) => i,
        None => s.len() as int,
    }
}

/// The sanitised form of a component name: the first `[]` becomes `Array`, then
/// the part before the first `/` is scrubbed.
pub open spec fn sanitised(s: Text) -> Text {
    let t = first_replaced(s, "[]"@, "Array"@);
    let k = first_segment_len(t);
    scrubbed(t.take(k)) + t.skip(k)
}

/// Sanitise a component name.
///
/// The first literal `[]` becomes `Array`. Then the first path segment, the part
/// before the first `/`, is scrubbed: any run of characters outside
/// `[A-Za-z0-9_\-.]` collapses to a single `_`.
pub fn sanitise(s: &str) -> (r: String)
    ensures
        r@ == sanitised(s@),
{
    let t = replace_first(s, "[]", "Array");
    let k: usize = match text::find(t.as_str(), "/") {
        Some(i) => i,
        None => t.as_str().unicode_len(),
    };
    proof {
        reveal_strlit("/");
        assert("/"@ =~= seq!['/']);
    }
    let first = scrub_first_component(text::take(t.as_str(), k).as_str());
    text::cat(first.as_str(), text::skip(t.as_str(), k).as_str())
}

/// The text with each `/` turned into `_`.
pub open spec fn slashes_flattened(s: Text) -> Text {
    Seq::new(
        s.len(),
        |i: int|
            if s[i] == '/' {
                '_'
            } else {
                s[i]
            },
    )
}

/// The sanitised form of a name taken as a single component.
pub open spec fn sanitised_all(s: Text) -> Text {
    sanitised(slashes_flattened(s))
}

/// Sanitise a name as a single component.
///
/// Replaces every `/` with `_`, then sanitises the whole thing as one segment.
pub fn sanitise_all(s: &str) -> (r: String)
    ensures
        r@ == sanitised_all(s@),
{
    let cs = text::to_chars(s);
    let mut out = String::new();
    let mut i: usize = 0;
    while i < cs.len()
        invariant
            i <= cs@.len(),
            cs@ == s@,
            out@ == slashes_flattened(s@).take(i as int),
        decreases cs@.len() - i,
    {
        out.push(
            if cs[i] == '/' {
                '_'
            } else {
                cs[i]
            },
        );
        i += 1;
        assert(slashes_flattened(s@).take(i as int) =~= slashes_flattened(s@).take(i - 1).push(
            slashes_flattened(s@)[i - 1],
        ));
    }
    assert(slashes_flattened(s@).take(i as int) =~= slashes_flattened(s@));
    sanitise(out.as_str())
}

// --- hash ------------------------------------------------------------------

/// The signed 32-bit integer congruent to `x`.
pub open spec fn wrapped(x: int) -> int {
    (x + 0x8000_0000) % 0x1_0000_0000 - 0x8000_0000
}

/// One step of the hash: `31 * h + unit` in wrapping 32-bit arithmetic.
pub open spec fn hash_unit(h: int, unit: int) -> int {
    wrapped(31 * h + unit)
}

/// The hash after one character: one UTF-16 code unit, or a surrogate pair.
pub open spec fn hash_char(h: int, c: char) -> int {
    let u = c as int;
    if u < 0x1_0000 {
        hash_unit(h, u)
    } else {
        hash_unit(hash_unit(h, 0xD800 + (u - 0x1_0000) / 0x400), 0xDC00 + (u - 0x1_0000) % 0x400)
    }
}

/// The hash after the characters from position `i` on.
pub open spec fn hash_from(s: Text, i: int, h: int) -> int
    decreases s.len() - i,
{
    if i >= s.len() {
        h
    } else {
        hash_from(s, i + 1, hash_char(h, s[i]))
    }
}

/// The JavaScript string hash of a text.
pub open spec fn hashed(s: Text) -> int {
    hash_from(s, 0, 0)
}

fn step(h: i32, unit: u32) -> (r: i32)
    requires
        unit < 0x1_0000,
    ensures
        r == hash_unit(h as int, unit as int),
{
    let x: i64 = 31 * (h as i64) + unit as i64;
    let y: i64 = (x + 0x8000_0000 + 0x20_0000_0000) % 0x1_0000_0000;
    (y - 0x8000_0000) as i32
}

/// JavaScript-compatible string hash.
///
/// Iterates over UTF-16 code units and uses wrapping 32-bit signed arithmetic,
/// matching `charCodeAt` plus `hash |= 0`. The result is used only as a cache
/// key for request body deduplication.
pub fn hash(s: &str) -> (h: i32)
    ensures
        h == hashed(s@),
{
    let cs = text::to_chars(s);
    let mut h: i32 = 0;
    let mut i: usize = 0;
    while i < cs.len()
        invariant
            i <= cs@.len(),
            cs@ == s@,
            hashed(s@) == hash_from(s@, i as int, h as int),
        decreases cs@.len() - i,
    {
        let u: u32 = cs[i] as u32;
        proof {
            vstd::utf8::char_u32_cast(cs[i as int], u);
            vstd::utf8::char_is_scalar(cs[i as int]);
        }
        if u < 0x1_0000 {
            h = step(h, u);
        } else {
            h = step(h, 0xD800 + (u - 0x1_0000) / 0x400);
            h = step(h, 0xDC00 + (u - 0x1_0000) % 0x400);
        }
        i += 1;
    }
    h
}

// --- camel case ------------------------------------------------------------

/// Whether camel casing drops `c`.
pub open spec fn separator(c: char) -> bool {
    c == '-' || c == '_' || c == ' ' || c == '/' || c == '.'
}

/// The text from position `i` on, with each separator dropped and the character
/// after separators in uppercase.
pub open spec fn camel_from(s: Text, i: int) -> Text
    decreases s.len() - i,
{
    if i >= s.len() {
        Seq::empty()
    } else if !separator(s[i]) {
        seq![s[i]] + camel_from(s, i + 1)
    } else if i + 1 < s.len() && !separator(s[i + 1]) {
        text::uppercase(s[i + 1]) + camel_from(s, i + 2)
    } else {
        camel_from(s, i + 1)
    }
}

/// The camel case form of a text.
pub open spec fn camel_cased(s: Text) -> Text {
    camel_from(text::lowercase(s), 0)
}

/// Whether camel casing drops `c`.
fn is_separator(c: char) -> (b: bool)
    ensures
        b == separator(c),
{
    c == '-' || c == '_' || c == ' ' || c == '/' || c == '.'
}

/// Drop each `- _ space / .` separator and uppercase the character that follows
/// it.
pub fn drop_separators(lower: &str) -> (r: String)
    ensures
        r@ == camel_from(lower@, 0),
{
    let cs = text::to_chars(lower);
    let mut out = String::new();
    let mut i: usize = 0;
    while i < cs.len()
        invariant
            i <= cs@.len(),
            cs@ == lower@,
            camel_from(lower@, 0) == out@ + camel_from(lower@, i as int),
        decreases cs@.len() - i,
    {
        let c: char = cs[i];
        let ghost before = out@;
        if !is_separator(c) {
            out.push(c);
            i += 1;
            assert(before + (seq![c] + camel_from(lower@, i as int)) =~= before.push(c)
                + camel_from(lower@, i as int));
        } else if i + 1 < cs.len() && !is_separator(cs[i + 1]) {
            let up = text::to_uppercase(cs[i + 1]);
            out.append(up.as_str());
            i += 2;
            assert(before + (up@ + camel_from(lower@, i as int)) =~= (before + up@) + camel_from(
                lower@,
                i as int,
            ));
        } else {
            i += 1;
        }
    }
    assert(out@ + camel_from(lower@, i as int) =~= out@);
    out
}

/// Lowercase the string, then drop each `- _ space / .` separator and uppercase
/// the character that follows it.
pub fn to_camel_case(s: &str) -> (r: String)
    ensures
        r@ == camel_cased(s@),
{
    let lower = text::to_lowercase(s);
    drop_separators(lower.as_str())
}

// --- lists -----------------------------------------------------------------

/// The first occurrences, in order.
pub open spec fn firsts(v: Seq<Text>) -> Seq<Text>
    decreases v.len(),
{
    if v.len() == 0 {
        Seq::empty()
    } else {
        let before = firsts(v.drop_last());
        if before.contains(v.last()) {
            before
        } else {
            before.push(v.last())
        }
    }
}

/// Whether `list` holds `s`.
pub fn list_contains(list: &Vec<String>, s: &str) -> (b: bool)
    ensures
        b == json::texts(list@).contains(s@),
{
    let mut i: usize = 0;
    while i < list.len()
        invariant
            i <= list@.len(),
            forall|j: int| 0 <= j < i ==> (#[trigger] list@[j])@ != s@,
        decreases list@.len() - i,
    {
        if *list[i].as_str() == *s {
            assert(json::texts(list@)[i as int] == s@);
            return true;
        }
        i += 1;
    }
    assert forall|j: int| 0 <= j < list@.len() implies json::texts(list@)[j] != s@ by {
        assert(list@[j]@ != s@);
    }
    false
}

/// Keep only first occurrences, preserving order.
pub fn unique_only(values: &[String]) -> (r: Vec<String>)
    ensures
        json::texts(r@) == firsts(json::texts(values@)),
{
    let mut seen: Vec<String> = Vec::new();
    let ghost vs = json::texts(values@);
    let mut i: usize = 0;
    assert(json::texts(seen@) =~= firsts(vs.take(0)));
    while i < values.len()
        invariant
            i <= values@.len(),
            vs == json::texts(values@),
            json::texts(seen@) == firsts(vs.take(i as int)),
        decreases values@.len() - i,
    {
        let ghost before = json::texts(seen@);
        let fresh = !list_contains(&seen, values[i].as_str());
        if fresh {
            seen.push(values[i].clone());
            assert(json::texts(seen@) =~= before.push(vs[i as int]));
        }
        i += 1;
        assert(vs.take(i as int).drop_last() =~= vs.take(i - 1));
    }
    assert(vs.take(i as int) =~= vs);
    seen
}

// --- truthiness ------------------------------------------------------------

/// Whether a number differs from zero.
pub open spec fn nonzero(n: Num) -> bool {
    match n {
        Num::PosInt(u) => u != 0,
        Num::NegInt(i) => i != 0,
        Num::Float(bits) => !number::zero(bits),
    }
}

/// The texts of a list of words.
pub open spec fn words(a: Seq<&'static str>) -> Seq<Text> {
    Seq::new(a.len(), |i: int| a[i]@)
}

/// JavaScript truthiness of an optional value.
pub open spec fn is_truthy(v: Option<Json>) -> bool {
    match v {
        Some(Json::Bool(b)) => b,
        Some(Json::Null) => false,
        None => false,
        Some(Json::String(s)) => s.len() > 0,
        Some(Json::Number(n)) => nonzero(n),
        Some(_) => true,
    }
}

/// JavaScript truthiness for an optional value.
pub fn truthy(v: Option<&JsonValue>) -> (b: bool)
    ensures
        b == is_truthy(value::opt(v)),
{
    match v {
        None => false,
        Some(v) => match v {
            JsonValue::Null => false,
            JsonValue::Bool(b) => *b,
            JsonValue::String(s) => !s.as_str().is_empty(),
            JsonValue::Number(n) => match n.parts() {
                Parts::PosInt(u) => *u != 0,
                Parts::NegInt(i) => *i != 0,
                Parts::Float { bits, text } => *bits != 0 && *bits != 0x8000_0000_0000_0000,
            },
            _ => true,
        },
    }
}

// --- percent escapes -------------------------------------------------------

/// Whether `encodeURIComponent` keeps a byte as it is.
pub open spec fn kept(b: u8) -> bool {
    text::ascii_letter(b as char) || text::ascii_digit(b as char) || b == 0x2D || b == 0x5F || b
        == 0x2E || b == 0x21 || b == 0x7E || b == 0x2A || b == 0x27 || b == 0x28 || b == 0x29
}

/// The uppercase hexadecimal digit for `d`.
pub open spec fn hex_digit(d: int) -> char {
    if d < 10 {
        ('0' as int + d) as char
    } else {
        ('A' as int + d - 10) as char
    }
}

/// The percent escape of a byte.
pub open spec fn escape(b: u8) -> Text {
    seq!['%', hex_digit((b / 16) as int), hex_digit((b % 16) as int)]
}

/// The escaped form of a byte: itself, or its percent escape.
pub open spec fn encode_byte(b: u8) -> Text {
    if kept(b) {
        seq![b as char]
    } else {
        escape(b)
    }
}

/// The escaped form of the bytes from position `i` on.
pub open spec fn encode_from(bytes: Seq<u8>, i: int) -> Text
    decreases bytes.len() - i,
{
    if i >= bytes.len() {
        Seq::empty()
    } else {
        encode_byte(bytes[i]) + encode_from(bytes, i + 1)
    }
}

/// The `encodeURIComponent` form of a text.
pub open spec fn uri_encoded(s: Text) -> Text {
    encode_from(vstd::utf8::encode_utf8(s), 0)
}

fn hex_char(d: u8) -> (c: char)
    requires
        d < 16,
    ensures
        c == hex_digit(d as int),
{
    if d < 10 {
        text::digit_char(d as u64)
    } else if d == 10 {
        'A'
    } else if d == 11 {
        'B'
    } else if d == 12 {
        'C'
    } else if d == 13 {
        'D'
    } else if d == 14 {
        'E'
    } else {
        'F'
    }
}

/// Minimal `encodeURIComponent` for path building.
///
/// Encodes the bytes that `encodeURIComponent` escapes, leaving the unreserved
/// set and the few extra marks it keeps.
pub fn encode_uri_component(s: &str) -> (r: String)
    ensures
        r@ == uri_encoded(s@),
{
    let bytes = s.as_bytes();
    let mut out = String::new();
    let mut i: usize = 0;
    while i < bytes.len()
        invariant
            i <= bytes@.len(),
            bytes@ == vstd::utf8::encode_utf8(s@),
            uri_encoded(s@) == out@ + encode_from(bytes@, i as int),
        decreases bytes@.len() - i,
    {
        let b: u8 = bytes[i];
        let ghost before = out@;
        let c: char = b as char;
        let keep = text::is_ascii_letter(c) || text::is_ascii_digit(c) || b == 0x2D || b == 0x5F
            || b == 0x2E || b == 0x21 || b == 0x7E || b == 0x2A || b == 0x27 || b == 0x28 || b
            == 0x29;
        if keep {
            out.push(c);
            assert(out@ =~= before + encode_byte(b));
        } else {
            out.push('%');
            out.push(hex_char(b / 16));
            out.push(hex_char(b % 16));
            assert(out@ =~= before + encode_byte(b));
        }
        i += 1;
        assert(before + (encode_byte(b) + encode_from(bytes@, i as int)) =~= (before + encode_byte(
            b,
        )) + encode_from(bytes@, i as int));
    }
    assert(out@ + encode_from(bytes@, i as int) =~= out@);
    out
}

/// The value of a hexadecimal digit.
pub open spec fn hex_value(b: u8) -> Option<int> {
    if 0x30 <= b <= 0x39 {
        Some(b - 0x30)
    } else if 0x41 <= b <= 0x46 {
        Some(b - 0x41 + 10)
    } else if 0x61 <= b <= 0x66 {
        Some(b - 0x61 + 10)
    } else {
        None
    }
}

/// Whether a percent escape stands at position `i`.
pub open spec fn escape_at(bytes: Seq<u8>, i: int) -> bool {
    bytes[i] == 0x25 && i + 2 < bytes.len() && hex_value(bytes[i + 1]) is Some && hex_value(
        bytes[i + 2],
    ) is Some
}

/// The bytes from position `i` on, with each percent escape decoded.
pub open spec fn decode_from(bytes: Seq<u8>, i: int) -> Seq<u8>
    decreases bytes.len() - i,
{
    if i >= bytes.len() {
        Seq::empty()
    } else if escape_at(bytes, i) {
        seq![(hex_value(bytes[i + 1])->0 * 16 + hex_value(bytes[i + 2])->0) as u8] + decode_from(
            bytes,
            i + 3,
        )
    } else {
        seq![bytes[i]] + decode_from(bytes, i + 1)
    }
}

/// The text that lossy UTF-8 decoding makes of bytes that are not valid UTF-8.
pub uninterp spec fn utf8_repaired(bytes: Seq<u8>) -> Text;

/// The text of the bytes.
pub open spec fn utf8_text(bytes: Seq<u8>) -> Text {
    if vstd::utf8::valid_utf8(bytes) {
        vstd::utf8::decode_utf8(bytes)
    } else {
        utf8_repaired(bytes)
    }
}

/// `String::from_utf8_lossy` decodes valid UTF-8 exactly. What it makes of other
/// bytes is a function of the bytes alone.
#[verifier::external_body]
fn from_utf8(bytes: &Vec<u8>) -> (r: String)
    ensures
        r@ == (if vstd::utf8::valid_utf8(bytes@) {
            vstd::utf8::decode_utf8(bytes@)
        } else {
            utf8_repaired(bytes@)
        }),
{
    String::from_utf8_lossy(bytes).into_owned()
}

/// The text with each percent escape decoded.
pub open spec fn uri_decoded(s: Text) -> Text {
    utf8_text(decode_from(vstd::utf8::encode_utf8(s), 0))
}

fn hex_number(b: u8) -> (r: Option<u8>)
    ensures
        match r {
            Some(d) => hex_value(b) == Some(d as int) && d < 16,
            None => hex_value(b) is None,
        },
{
    if 0x30 <= b && b <= 0x39 {
        Some(b - 0x30)
    } else if 0x41 <= b && b <= 0x46 {
        Some(b - 0x41 + 10)
    } else if 0x61 <= b && b <= 0x66 {
        Some(b - 0x61 + 10)
    } else {
        None
    }
}

/// Minimal `decodeURIComponent`, decoding `%XX` byte escapes as UTF-8.
pub fn decode_uri_component(s: &str) -> (r: String)
    ensures
        r@ == uri_decoded(s@),
{
    let bytes = s.as_bytes();
    let mut out: Vec<u8> = Vec::new();
    let mut i: usize = 0;
    while i < bytes.len()
        invariant
            i <= bytes@.len(),
            bytes@ == vstd::utf8::encode_utf8(s@),
            decode_from(bytes@, 0) == out@ + decode_from(bytes@, i as int),
        decreases bytes@.len() - i,
    {
        let ghost before = out@;
        let n: usize = bytes.len();
        if bytes[i] == 0x25 && n - i > 2 {
            if let (Some(hi), Some(lo)) = (hex_number(bytes[i + 1]), hex_number(bytes[i + 2])) {
                out.push(hi * 16 + lo);
                i += 3;
                assert(before + (seq![(hi * 16 + lo) as u8] + decode_from(bytes@, i as int))
                    =~= before.push((hi * 16 + lo) as u8) + decode_from(bytes@, i as int));
                continue;
            }
        }
        out.push(bytes[i]);
        i += 1;
        assert(before + (seq![bytes@[i - 1]] + decode_from(bytes@, i as int)) =~= before.push(
            bytes@[i - 1],
        ) + decode_from(bytes@, i as int));
    }
    assert(out@ + decode_from(bytes@, i as int) =~= out@);
    from_utf8(&out)
}

} // verus!
