//! Text helpers.
//!
//! Each function is given by a spec function over the characters of its
//! arguments. Positions count characters.

use vstd::prelude::*;

use crate::json::{self, Text};

verus! {

/// `String::push` appends one character.
pub assume_specification[ std::string::String::push ](s: &mut std::string::String, c: char)
    ensures
        final(s)@ == old(s)@.push(c),
;

/// Whether Unicode gives `c` the `White_Space` property.
pub open spec fn white_space(c: char) -> bool {
    ('\u{9}' <= c && c <= '\u{d}') || c == ' ' || c == '\u{85}' || c == '\u{a0}' || c == '\u{1680}'
        || ('\u{2000}' <= c && c <= '\u{200a}') || c == '\u{2028}' || c == '\u{2029}' || c
        == '\u{202f}' || c == '\u{205f}' || c == '\u{3000}'
}

/// `char::is_whitespace` tests the `White_Space` property.
pub assume_specification[ char::is_whitespace ](c: char) -> (b: bool)
    ensures
        b == white_space(c),
;

/// Whether Unicode gives a character beyond ASCII an alphabetic or a numeric
/// property.
pub uninterp spec fn wide_alphanumeric(c: char) -> bool;

/// Whether Unicode gives `c` an alphabetic or a numeric property. In ASCII the letters
/// and the digits have one.
pub open spec fn alphanumeric(c: char) -> bool {
    if ascii(c) {
        ascii_letter(c) || ascii_digit(c)
    } else {
        wide_alphanumeric(c)
    }
}

/// `char::is_alphanumeric` tests the alphabetic and the numeric properties, which in
/// ASCII are those of the letters and the digits.
pub assume_specification[ char::is_alphanumeric ](c: char) -> (b: bool)
    ensures
        b == (if ascii(c) {
            ascii_letter(c) || ascii_digit(c)
        } else {
            wide_alphanumeric(c)
        }),
;

/// The Unicode lowercase mapping of a text that is not all ASCII.
pub uninterp spec fn wide_lowercase(s: Text) -> Text;

/// The Unicode lowercase mapping of a text. In ASCII it maps the letters `A` to `Z`.
pub open spec fn lowercase(s: Text) -> Text {
    if all_ascii(s) {
        s.map_values(|c: char| ascii_lower(c))
    } else {
        wide_lowercase(s)
    }
}

/// `str::to_lowercase` applies the Unicode lowercase mapping, which in ASCII maps the
/// letters `A` to `Z` to `a` to `z` and nothing else.
#[verifier::external_body]
pub(crate) fn to_lowercase(s: &str) -> (r: String)
    ensures
        r@ == (if all_ascii(s@) {
            s@.map_values(|c: char| ascii_lower(c))
        } else {
            wide_lowercase(s@)
        }),
{
    s.to_lowercase()
}

/// The Unicode uppercase mapping of a character beyond ASCII.
pub uninterp spec fn wide_uppercase(c: char) -> Text;

/// The Unicode uppercase mapping of a character. In ASCII it maps the letters `a` to
/// `z`.
pub open spec fn uppercase(c: char) -> Text {
    if ascii(c) {
        seq![ascii_upper(c)]
    } else {
        wide_uppercase(c)
    }
}

/// `char::to_uppercase` lists the Unicode uppercase mapping of a character, which in
/// ASCII maps the letters `a` to `z` to `A` to `Z` and nothing else.
#[verifier::external_body]
pub(crate) fn to_uppercase(c: char) -> (r: String)
    ensures
        r@ == (if ascii(c) {
            seq![ascii_upper(c)]
        } else {
            wide_uppercase(c)
        }),
{
    c.to_uppercase().to_string()
}

// --- characters ------------------------------------------------------------

/// Whether `c` is an ASCII character.
pub open spec fn ascii(c: char) -> bool {
    c <= '\u{7f}'
}

/// Whether every character of a text is an ASCII character.
pub open spec fn all_ascii(s: Text) -> bool {
    forall|i: int| 0 <= i < s.len() ==> ascii(#[trigger] s[i])
}

/// The lowercase form of an ASCII character.
pub open spec fn ascii_lower(c: char) -> char {
    if 'A' <= c && c <= 'Z' {
        (c as int + 32) as char
    } else {
        c
    }
}

/// The uppercase form of an ASCII character.
pub open spec fn ascii_upper(c: char) -> char {
    if 'a' <= c && c <= 'z' {
        (c as int - 32) as char
    } else {
        c
    }
}

/// Whether `c` is an ASCII letter.
pub open spec fn ascii_letter(c: char) -> bool {
    ('a' <= c && c <= 'z') || ('A' <= c && c <= 'Z')
}

/// Whether `c` is an ASCII digit.
pub open spec fn ascii_digit(c: char) -> bool {
    '0' <= c && c <= '9'
}

/// Whether `c` is an ASCII letter.
pub fn is_ascii_letter(c: char) -> (b: bool)
    ensures
        b == ascii_letter(c),
{
    ('a' <= c && c <= 'z') || ('A' <= c && c <= 'Z')
}

/// Whether `c` is an ASCII digit.
pub fn is_ascii_digit(c: char) -> (b: bool)
    ensures
        b == ascii_digit(c),
{
    '0' <= c && c <= '9'
}

/// The characters of a string.
pub fn to_chars(s: &str) -> (r: Vec<char>)
    ensures
        r@ == s@,
{
    let mut r: Vec<char> = Vec::new();
    for c in it: s.chars()
        invariant
            it.seq() == s@,
            r@ == s@.take(it.index() as int),
    {
        r.push(c);
        assert(s@.take(it.index() as int + 1) =~= s@.take(it.index() as int).push(c));
    }
    assert(s@.take(s@.len() as int) =~= s@);
    r
}

// --- search ----------------------------------------------------------------

/// Whether `pat` stands at position `i` of `s`.
pub open spec fn stands_at(s: Text, pat: Text, i: int) -> bool {
    i + pat.len() <= s.len() && s.subrange(i, i + pat.len()) == pat
}

/// Whether `s` starts with `pat`.
pub open spec fn starts(s: Text, pat: Text) -> bool {
    stands_at(s, pat, 0)
}

/// The first position at or after `i` at which `pat` stands.
pub open spec fn find_from(s: Text, pat: Text, i: int) -> Option<int>
    decreases s.len() + 1 - i,
{
    if i > s.len() {
        None
    } else if stands_at(s, pat, i) {
        Some(i)
    } else {
        find_from(s, pat, i + 1)
    }
}

/// The first position at which `pat` stands.
pub open spec fn find_spec(s: Text, pat: Text) -> Option<int> {
    find_from(s, pat, 0)
}

/// Whether `pat` occurs in `s`.
pub open spec fn occurs(s: Text, pat: Text) -> bool {
    find_spec(s, pat) is Some
}

/// The last position at or before `i - 1` that holds `c`.
pub open spec fn rfind_from(s: Text, c: char, i: int) -> Option<int>
    decreases i,
{
    if i <= 0 {
        None
    } else if s[i - 1] == c {
        Some(i - 1)
    } else {
        rfind_from(s, c, i - 1)
    }
}

fn chars_stand_at(s: &Vec<char>, pat: &Vec<char>, i: usize) -> (b: bool)
    requires
        i <= s@.len(),
    ensures
        b == stands_at(s@, pat@, i as int),
{
    let n: usize = s.len();
    if pat.len() > n - i {
        return false;
    }
    let mut k: usize = 0;
    while k < pat.len()
        invariant
            i <= s@.len(),
            k <= pat@.len(),
            n == s@.len(),
            i + pat@.len() <= n,
            forall|j: int| 0 <= j < k ==> s@[i + j] == pat@[j],
        decreases pat@.len() - k,
    {
        if s[i + k] != pat[k] {
            assert(s@.subrange(i as int, i + pat@.len())[k as int] != pat@[k as int]);
            return false;
        }
        k += 1;
    }
    assert(s@.subrange(i as int, i + pat@.len()) =~= pat@);
    true
}

/// Whether `s` starts with `pat`.
pub fn starts_with(s: &str, pat: &str) -> (b: bool)
    ensures
        b == starts(s@, pat@),
{
    chars_stand_at(&to_chars(s), &to_chars(pat), 0)
}

/// The first position at which `pat` stands.
pub fn find(s: &str, pat: &str) -> (r: Option<usize>)
    ensures
        match r {
            Some(i) => find_spec(s@, pat@) == Some(i as int) && i + pat@.len() <= s@.len(),
            None => find_spec(s@, pat@) is None,
        },
{
    find_after(s, pat, 0)
}

/// The first position at or after `from` at which `pat` stands.
pub fn find_after(s: &str, pat: &str, from: usize) -> (r: Option<usize>)
    requires
        from <= s@.len(),
    ensures
        match r {
            Some(i) => {
                &&& find_from(s@, pat@, from as int) == Some(i as int)
                &&& from <= i
                &&& i + pat@.len() <= s@.len()
            },
            None => find_from(s@, pat@, from as int) is None,
        },
{
    let cs = to_chars(s);
    let ps = to_chars(pat);
    let mut i: usize = from;
    loop
        invariant
            from <= i <= cs@.len(),
            cs@ == s@,
            ps@ == pat@,
            find_from(s@, pat@, from as int) == find_from(s@, pat@, i as int),
        decreases cs@.len() - i,
    {
        if chars_stand_at(&cs, &ps, i) {
            return Some(i);
        }
        if i == cs.len() {
            assert(find_from(s@, pat@, i + 1) is None);
            return None;
        }
        i += 1;
    }
}

/// Whether `pat` occurs in `s`.
pub fn contains(s: &str, pat: &str) -> (b: bool)
    ensures
        b == occurs(s@, pat@),
{
    find(s, pat).is_some()
}

/// The last position that holds `c`.
pub fn rfind(s: &str, c: char) -> (r: Option<usize>)
    ensures
        match r {
            Some(i) => rfind_from(s@, c, s@.len() as int) == Some(i as int) && i < s@.len(),
            None => rfind_from(s@, c, s@.len() as int) is None,
        },
{
    let cs = to_chars(s);
    let mut i: usize = cs.len();
    while i > 0
        invariant
            i <= cs@.len(),
            cs@ == s@,
            rfind_from(s@, c, s@.len() as int) == rfind_from(s@, c, i as int),
        decreases i,
    {
        if cs[i - 1] == c {
            return Some(i - 1);
        }
        i -= 1;
    }
    None
}

/// The last position before `i` at which `pat` stands.
pub open spec fn rfind_text_from(s: Text, pat: Text, i: int) -> Option<int>
    decreases i,
{
    if i <= 0 {
        None
    } else if stands_at(s, pat, i - 1) {
        Some(i - 1)
    } else {
        rfind_text_from(s, pat, i - 1)
    }
}

/// The last position at which `pat` stands.
pub open spec fn rfind_text_spec(s: Text, pat: Text) -> Option<int> {
    rfind_text_from(s, pat, s.len() as int + 1)
}

/// The last position at which `pat` stands.
pub fn rfind_text(s: &str, pat: &str) -> (r: Option<usize>)
    ensures
        match r {
            Some(i) => rfind_text_spec(s@, pat@) == Some(i as int),
            None => rfind_text_spec(s@, pat@) is None,
        },
{
    let cs = to_chars(s);
    let ps = to_chars(pat);
    let n: usize = cs.len();
    if chars_stand_at(&cs, &ps, n) {
        return Some(n);
    }
    let mut i: usize = n;
    while i > 0
        invariant
            i <= n,
            n == cs@.len(),
            cs@ == s@,
            ps@ == pat@,
            rfind_text_spec(s@, pat@) == rfind_text_from(s@, pat@, i as int),
        decreases i,
    {
        if chars_stand_at(&cs, &ps, i - 1) {
            return Some(i - 1);
        }
        i -= 1;
    }
    None
}

/// The rest of `s` after the prefix `pat`.
pub open spec fn stripped(s: Text, pat: Text) -> Option<Text> {
    if starts(s, pat) {
        Some(s.skip(pat.len() as int))
    } else {
        None
    }
}

/// The rest of `s` after the prefix `pat`.
pub fn strip_prefix(s: &str, pat: &str) -> (r: Option<String>)
    ensures
        match r {
            Some(t) => stripped(s@, pat@) == Some(t@),
            None => stripped(s@, pat@) is None,
        },
{
    if starts_with(s, pat) {
        Some(skip(s, pat.unicode_len()))
    } else {
        None
    }
}

/// The characters of `s` from `from` on.
pub fn skip(s: &str, from: usize) -> (r: String)
    requires
        from <= s@.len(),
    ensures
        r@ == s@.skip(from as int),
{
    let n: usize = s.unicode_len();
    s.substring_char(from, n).to_owned()
}

/// The first `to` characters of `s`.
pub fn take(s: &str, to: usize) -> (r: String)
    requires
        to <= s@.len(),
    ensures
        r@ == s@.take(to as int),
{
    s.substring_char(0, to).to_owned()
}

// --- rewriting -------------------------------------------------------------

/// Replace each `pat` at or after position `i`, from left to right. An empty
/// `pat` replaces nothing.
pub open spec fn replace_from(s: Text, pat: Text, to: Text, i: int) -> Text
    decreases s.len() - i,
{
    if i >= s.len() {
        Seq::empty()
    } else if pat.len() > 0 && stands_at(s, pat, i) {
        to + replace_from(s, pat, to, i + pat.len())
    } else {
        seq![s[i]] + replace_from(s, pat, to, i + 1)
    }
}

/// Replace each `pat` in `s` by `to`, from left to right.
pub open spec fn replaced(s: Text, pat: Text, to: Text) -> Text {
    replace_from(s, pat, to, 0)
}

/// Replace each `pat` in `s` by `to`, from left to right.
pub fn replace(s: &str, pat: &str, to: &str) -> (r: String)
    ensures
        r@ == replaced(s@, pat@, to@),
{
    let cs = to_chars(s);
    let ps = to_chars(pat);
    let mut out = String::new();
    let mut i: usize = 0;
    while i < cs.len()
        invariant
            i <= cs@.len(),
            cs@ == s@,
            ps@ == pat@,
            replaced(s@, pat@, to@) == out@ + replace_from(s@, pat@, to@, i as int),
        decreases cs@.len() - i,
    {
        let ghost before = out@;
        if ps.len() > 0 && chars_stand_at(&cs, &ps, i) {
            out.append(to);
            i += ps.len();
            proof {
                let rest = replace_from(s@, pat@, to@, i as int);
                assert(before + (to@ + rest) =~= (before + to@) + rest);
            }
        } else {
            out.push(cs[i]);
            proof {
                let rest = replace_from(s@, pat@, to@, i + 1);
                assert(before + (seq![s@[i as int]] + rest) =~= before.push(s@[i as int]) + rest);
            }
            i += 1;
        }
    }
    assert(out@ + replace_from(s@, pat@, to@, i as int) =~= out@);
    out
}

/// The pieces of `s` between the `c`s: `start` is where the piece begins that
/// `i` stands in.
pub open spec fn split_from(s: Text, c: char, start: int, i: int) -> Seq<Text>
    decreases s.len() - i,
{
    if i >= s.len() {
        seq![s.subrange(start, s.len() as int)]
    } else if s[i] == c {
        seq![s.subrange(start, i)] + split_from(s, c, i + 1, i + 1)
    } else {
        split_from(s, c, start, i + 1)
    }
}

/// The pieces of `s` between the `c`s.
pub open spec fn pieces(s: Text, c: char) -> Seq<Text> {
    split_from(s, c, 0, 0)
}

/// There is always at least one piece.
pub proof fn pieces_nonempty(s: Text, c: char, start: int, i: int)
    ensures
        split_from(s, c, start, i).len() > 0,
    decreases s.len() - i,
{
    if i < s.len() && s[i] != c {
        pieces_nonempty(s, c, start, i + 1);
    }
}

/// The pieces of `s` between the `c`s.
pub fn split(s: &str, c: char) -> (r: Vec<String>)
    ensures
        json::texts(r@) == pieces(s@, c),
        r@.len() > 0,
{
    let cs = to_chars(s);
    let mut out: Vec<String> = Vec::new();
    let mut start: usize = 0;
    let mut i: usize = 0;
    while i < cs.len()
        invariant
            start <= i <= cs@.len(),
            cs@ == s@,
            pieces(s@, c) == json::texts(out@) + split_from(s@, c, start as int, i as int),
        decreases cs@.len() - i,
    {
        if cs[i] == c {
            let ghost before = json::texts(out@);
            out.push(s.substring_char(start, i).to_owned());
            i += 1;
            proof {
                let piece = s@.subrange(start as int, i - 1);
                let rest = split_from(s@, c, i as int, i as int);
                assert(json::texts(out@) =~= before.push(piece));
                assert(before + (seq![piece] + rest) =~= before.push(piece) + rest);
            }
            start = i;
        } else {
            i += 1;
        }
    }
    let ghost before = json::texts(out@);
    let n: usize = cs.len();
    out.push(s.substring_char(start, n).to_owned());
    proof {
        let piece = s@.subrange(start as int, s@.len() as int);
        assert(json::texts(out@) =~= before.push(piece));
        assert(before + seq![piece] =~= before.push(piece));
    }
    out
}

/// The parts with `sep` between them.
pub open spec fn joined(parts: Seq<Text>, sep: Text) -> Text
    decreases parts.len(),
{
    if parts.len() == 0 {
        Seq::empty()
    } else if parts.len() == 1 {
        parts[0]
    } else {
        joined(parts.drop_last(), sep) + sep + parts.last()
    }
}

/// The parts with `sep` between them.
pub fn join(parts: &Vec<String>, sep: &str) -> (r: String)
    ensures
        r@ == joined(json::texts(parts@), sep@),
{
    let mut out = String::new();
    let ghost ts = json::texts(parts@);
    let mut i: usize = 0;
    while i < parts.len()
        invariant
            i <= parts@.len(),
            ts == json::texts(parts@),
            out@ == joined(ts.take(i as int), sep@),
        decreases parts@.len() - i,
    {
        if i > 0 {
            out.append(sep);
        }
        out.append(parts[i].as_str());
        i += 1;
        proof {
            assert(ts.take(i as int).drop_last() =~= ts.take(i - 1));
            if i == 1 {
                assert(Seq::<char>::empty() + ts[0] =~= ts[0]);
            }
        }
    }
    assert(ts.take(i as int) =~= ts);
    out
}

/// `a` followed by `b`.
pub fn cat(a: &str, b: &str) -> (r: String)
    ensures
        r@ == a@ + b@,
{
    let mut r = a.to_owned();
    r.append(b);
    r
}

/// `a` followed by `b` and `c`.
pub fn cat3(a: &str, b: &str, c: &str) -> (r: String)
    ensures
        r@ == a@ + b@ + c@,
{
    let mut r = a.to_owned();
    r.append(b);
    r.append(c);
    r
}

/// The text without leading and trailing white space.
pub open spec fn trimmed(s: Text) -> Text {
    trimmed_end(trimmed_start(s))
}

/// The text without leading white space.
pub open spec fn trimmed_start(s: Text) -> Text
    decreases s.len(),
{
    if s.len() > 0 && white_space(s[0]) {
        trimmed_start(s.drop_first())
    } else {
        s
    }
}

/// The text without trailing white space.
pub open spec fn trimmed_end(s: Text) -> Text
    decreases s.len(),
{
    if s.len() > 0 && white_space(s.last()) {
        trimmed_end(s.drop_last())
    } else {
        s
    }
}

/// The text without leading and trailing white space.
pub fn trim(s: &str) -> (r: String)
    ensures
        r@ == trimmed(s@),
{
    let cs = to_chars(s);
    let mut from: usize = 0;
    assert(s@.skip(0) =~= s@);
    while from < cs.len() && cs[from].is_whitespace()
        invariant
            from <= cs@.len(),
            cs@ == s@,
            trimmed_start(s@) == trimmed_start(s@.skip(from as int)),
        decreases cs@.len() - from,
    {
        from += 1;
        assert(s@.skip(from - 1).drop_first() =~= s@.skip(from as int));
    }
    let ghost t = s@.skip(from as int);
    assert(trimmed_start(s@) == t);
    let mut to: usize = cs.len();
    assert(s@.subrange(from as int, to as int) =~= t);
    while to > from && cs[to - 1].is_whitespace()
        invariant
            from <= to <= cs@.len(),
            cs@ == s@,
            trimmed_end(t) == trimmed_end(s@.subrange(from as int, to as int)),
        decreases to,
    {
        to -= 1;
        assert(s@.subrange(from as int, to + 1).drop_last() =~= s@.subrange(from as int, to as int));
    }
    s.substring_char(from, to).to_owned()
}

/// The text without trailing `c`s.
pub open spec fn without_trailing(s: Text, c: char) -> Text
    decreases s.len(),
{
    if s.len() > 0 && s.last() == c {
        without_trailing(s.drop_last(), c)
    } else {
        s
    }
}

/// The text without trailing `c`s.
pub fn trim_end(s: &str, c: char) -> (r: String)
    ensures
        r@ == without_trailing(s@, c),
{
    let cs = to_chars(s);
    let mut to: usize = cs.len();
    assert(s@.take(to as int) =~= s@);
    while to > 0 && cs[to - 1] == c
        invariant
            to <= cs@.len(),
            cs@ == s@,
            without_trailing(s@, c) == without_trailing(s@.take(to as int), c),
        decreases to,
    {
        to -= 1;
        assert(s@.take(to + 1).drop_last() =~= s@.take(to as int));
    }
    take(s, to)
}

// --- numbers ---------------------------------------------------------------

/// The digit for `d`.
pub open spec fn digit(d: int) -> char {
    ('0' as int + d) as char
}

/// The decimal digits of `n`.
pub open spec fn decimal(n: nat) -> Text
    decreases n,
{
    if n < 10 {
        seq![digit(n as int)]
    } else {
        decimal(n / 10).push(digit((n % 10) as int))
    }
}

/// The decimal digits of an integer, after `-` when it is negative.
pub open spec fn decimal_int(n: int) -> Text {
    if n < 0 {
        seq!['-'] + decimal((-n) as nat)
    } else {
        decimal(n as nat)
    }
}

/// The digit for `d`.
pub fn digit_char(d: u64) -> (c: char)
    requires
        d < 10,
    ensures
        c == digit(d as int),
{
    if d == 0 {
        '0'
    } else if d == 1 {
        '1'
    } else if d == 2 {
        '2'
    } else if d == 3 {
        '3'
    } else if d == 4 {
        '4'
    } else if d == 5 {
        '5'
    } else if d == 6 {
        '6'
    } else if d == 7 {
        '7'
    } else if d == 8 {
        '8'
    } else {
        '9'
    }
}

/// The decimal digits of `n`.
pub fn u64_text(n: u64) -> (r: String)
    ensures
        r@ == decimal(n as nat),
    decreases n,
{
    if n < 10 {
        let mut s = String::new();
        s.push(digit_char(n));
        assert(s@ =~= seq![digit(n as int)]);
        s
    } else {
        let mut s = u64_text(n / 10);
        s.push(digit_char(n % 10));
        s
    }
}

/// The decimal digits of `n`, after `-` when it is negative.
pub fn i64_text(n: i64) -> (r: String)
    ensures
        r@ == decimal_int(n as int),
{
    if n < 0 {
        let m: u64 = if n == i64::MIN {
            0x8000_0000_0000_0000
        } else {
            (-n) as u64
        };
        let mut s = String::new();
        s.push('-');
        assert(s@ =~= seq!['-']);
        s.append(u64_text(m).as_str());
        s
    } else {
        u64_text(n as u64)
    }
}

} // verus!
