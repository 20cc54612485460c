//! YAML and JSON parsing into a [`JsonValue`].
//!
//! The string, file, and stream entry points accept either JSON or YAML. JSON
//! is tried first, then YAML. Map keys that parse as integers, such as response
//! status codes, are normalised to strings so the document model stays uniform.

use vstd::prelude::*;

use crate::common;
use crate::error::S2OError;
use crate::json::{self, Json, Members, Num, Text};
use crate::laws;
use crate::number::{self, JsonNumber, Parts};
use crate::serial::{self, OpenedYaml, Yaml};
use crate::text;
use crate::value::{self, JsonValue, Object};

verus! {

// --- whole numbers ---------------------------------------------------------

/// The power of two.
pub open spec fn pow2(k: nat) -> nat
    decreases k,
{
    if k == 0 {
        1
    } else {
        2 * pow2((k - 1) as nat)
    }
}

/// The biased exponent of a binary64 number.
pub open spec fn exponent(bits: u64) -> nat {
    ((bits / 0x10_0000_0000_0000) % 0x800) as nat
}

/// The significand of a normal binary64 number, an integer.
pub open spec fn significand(bits: u64) -> nat {
    (0x10_0000_0000_0000 + bits % 0x10_0000_0000_0000) as nat
}

/// The magnitude of a binary64 number that is a whole number.
///
/// A normal number is its significand times `2^(exponent - 1075)`.
pub open spec fn whole_magnitude(bits: u64) -> Option<nat> {
    let e = exponent(bits);
    if e == 0 {
        if number::zero(bits) {
            Some(0)
        } else {
            None
        }
    } else if e >= 1075 {
        Some(significand(bits) * pow2((e - 1075) as nat))
    } else {
        let d = pow2((1075 - e) as nat);
        if significand(bits) % d == 0 {
            Some(significand(bits) / d)
        } else {
            None
        }
    }
}

/// Whether a binary64 number has a negative sign.
pub open spec fn negative(bits: u64) -> bool {
    bits >= 0x8000_0000_0000_0000
}

/// The integer that a binary64 number collapses to: a whole number from
/// `i64::MIN` to `2^63`, with `i64::MAX` for the last.
pub open spec fn collapsed(bits: u64) -> Option<i64> {
    match whole_magnitude(bits) {
        Some(n) => if n > 0x8000_0000_0000_0000 {
            None
        } else if negative(bits) {
            Some((-n) as i64)
        } else if n == 0x8000_0000_0000_0000 {
            Some(i64::MAX)
        } else {
            Some(n as i64)
        },
        None => None,
    }
}

/// The number with a whole floating point number as an integer.
pub open spec fn number_normalised(n: Num) -> Num {
    match n {
        Num::Float(bits) => match collapsed(bits) {
            Some(i) => number::int_number(i),
            None => n,
        },
        _ => n,
    }
}

/// Greater powers of two are greater.
proof fn pow2_grows(a: nat, b: nat)
    requires
        a <= b,
    ensures
        pow2(a) <= pow2(b),
        pow2(a) >= 1,
    decreases b,
{
    if b > 0 {
        if a < b {
            pow2_grows(a, (b - 1) as nat);
        } else {
            pow2_grows((a - 1) as nat, (b - 1) as nat);
        }
    }
}

/// `2^k`.
fn power_of_two(k: u64) -> (r: u64)
    requires
        k <= 53,
    ensures
        r == pow2(k as nat),
        1 <= r <= 0x20_0000_0000_0000,
{
    let mut r: u64 = 1;
    let mut i: u64 = 0;
    proof {
        reveal_with_fuel(pow2, 54);
        assert(pow2(53) == 0x20_0000_0000_0000);
        pow2_grows(k as nat, 53);
    }
    while i < k
        invariant
            i <= k <= 53,
            r == pow2(i as nat),
            pow2(53) == 0x20_0000_0000_0000,
        decreases k - i,
    {
        proof {
            pow2_grows((i + 1) as nat, 53);
        }
        r = r * 2;
        i += 1;
    }
    proof {
        pow2_grows(k as nat, k as nat);
    }
    r
}

/// The magnitude of a binary64 number that is a whole number of at most `2^63`.
fn small_magnitude(bits: u64) -> (r: Option<u64>)
    ensures
        match r {
            Some(n) => whole_magnitude(bits) == Some(n as nat) && n <= 0x8000_0000_0000_0000,
            None => match whole_magnitude(bits) {
                Some(n) => n > 0x8000_0000_0000_0000,
                None => true,
            },
        },
{
    let e: u64 = (bits / 0x10_0000_0000_0000) % 0x800;
    let m: u64 = 0x10_0000_0000_0000 + bits % 0x10_0000_0000_0000;
    if e == 0 {
        if bits == 0 || bits == 0x8000_0000_0000_0000 {
            Some(0)
        } else {
            None
        }
    } else if e >= 1075 {
        proof {
            reveal_with_fuel(pow2, 13);
            assert(pow2(11) == 2048);
            assert(pow2(12) == 4096);
        }
        if e - 1075 > 11 {
            proof {
                pow2_grows(12, (e - 1075) as nat);
                let p = pow2((e - 1075) as nat);
                assert(m * p >= 0x10_0000_0000_0000 * 4096) by (nonlinear_arith)
                    requires
                        m >= 0x10_0000_0000_0000,
                        p >= 4096,
                ;
            }
            None
        } else {
            let d: u64 = power_of_two(e - 1075);
            proof {
                pow2_grows((e - 1075) as nat, 11);
                assert(m * d <= 0x1F_FFFF_FFFF_FFFF * 2048) by (nonlinear_arith)
                    requires
                        m <= 0x1F_FFFF_FFFF_FFFF,
                        d <= 2048,
                ;
            }
            let n: u64 = m * d;
            if n <= 0x8000_0000_0000_0000 {
                Some(n)
            } else {
                None
            }
        }
    } else if 1075 - e > 53 {
        proof {
            reveal_with_fuel(pow2, 54);
            assert(pow2(53) == 0x20_0000_0000_0000);
            pow2_grows(53, (1075 - e) as nat);
            let d = pow2((1075 - e) as nat);
            vstd::arithmetic::div_mod::lemma_small_mod(m as nat, d);
        }
        None
    } else {
        let d: u64 = power_of_two(1075 - e);
        if m % d == 0 {
            let n: u64 = m / d;
            proof {
                assert(n <= m) by (nonlinear_arith)
                    requires
                        n == m / d,
                        d >= 1,
                ;
            }
            Some(n)
        } else {
            None
        }
    }
}

/// The integer that a binary64 number collapses to.
pub fn collapse(bits: u64) -> (r: Option<i64>)
    ensures
        r == collapsed(bits),
{
    match small_magnitude(bits) {
        Some(n) => if bits >= 0x8000_0000_0000_0000 {
            if n == 0x8000_0000_0000_0000 {
                Some(i64::MIN)
            } else {
                Some(-(n as i64))
            }
        } else if n == 0x8000_0000_0000_0000 {
            Some(i64::MAX)
        } else {
            Some(n as i64)
        },
        None => None,
    }
}

/// Collapse a number.
fn normalise_number(n: &JsonNumber) -> (r: JsonNumber)
    ensures
        r@ == number_normalised(n@),
{
    if let Parts::Float { bits, text: _ } = n.parts() {
        if let Some(i) = collapse(*bits) {
            return JsonNumber::from_i64(i);
        }
    }
    n.clone()
}

/// The document with whole floating point numbers as integers.
pub open spec fn normalised(j: Json) -> Json
    decreases j, 0nat,
{
    match j {
        Json::Number(n) => Json::Number(number_normalised(n)),
        Json::Array(a) => Json::Array(elements_normalised(a, 0)),
        Json::Object(m) => Json::Object(members_normalised(m, 0)),
        _ => j,
    }
}

/// The elements from position `i` on, normalised.
pub open spec fn elements_normalised(a: Seq<Json>, i: nat) -> Seq<Json>
    decreases a, a.len() - i,
{
    if i >= a.len() {
        Seq::empty()
    } else {
        seq![normalised(a[i as int])] + elements_normalised(a, i + 1)
    }
}

/// The members from position `i` on, normalised.
pub open spec fn members_normalised(m: Members, i: nat) -> Members
    decreases m, m.len() - i,
{
    if i >= m.len() {
        Seq::empty()
    } else {
        seq![(m[i as int].0, normalised(m[i as int].1))] + members_normalised(m, i + 1)
    }
}

/// The normalised elements are the elements, each normalised.
pub proof fn elements_normalised_each(a: Seq<Json>, i: nat)
    requires
        i <= a.len(),
    ensures
        elements_normalised(a, i).len() == a.len() - i,
        forall|k: int|
            0 <= k < a.len() - i ==> #[trigger] elements_normalised(a, i)[k] == normalised(
                a[i + k],
            ),
    decreases a.len() - i,
{
    if i < a.len() {
        elements_normalised_each(a, i + 1);
        assert forall|k: int| 0 <= k < a.len() - i implies #[trigger] elements_normalised(a, i)[k]
            == normalised(a[i + k]) by {
            if k > 0 {
                assert(elements_normalised(a, i)[k] == elements_normalised(a, i + 1)[k - 1]);
            }
        }
    }
}

/// The normalised members are the members, each with its value normalised.
pub proof fn members_normalised_each(m: Members, i: nat)
    requires
        i <= m.len(),
    ensures
        members_normalised(m, i).len() == m.len() - i,
        forall|k: int|
            0 <= k < m.len() - i ==> #[trigger] members_normalised(m, i)[k] == (
                m[i + k].0,
                normalised(m[i + k].1),
            ),
    decreases m.len() - i,
{
    if i < m.len() {
        members_normalised_each(m, i + 1);
        assert forall|k: int| 0 <= k < m.len() - i implies #[trigger] members_normalised(m, i)[k]
            == (m[i + k].0, normalised(m[i + k].1)) by {
            if k > 0 {
                assert(members_normalised(m, i)[k] == members_normalised(m, i + 1)[k - 1]);
            }
        }
    }
}

/// To normalise a document again changes nothing.
pub proof fn normalising_twice(j: Json)
    ensures
        normalised(normalised(j)) == normalised(j),
    decreases j,
{
    match j {
        Json::Array(a) => {
            let b = elements_normalised(a, 0);
            elements_normalised_each(a, 0);
            elements_normalised_each(b, 0);
            assert forall|k: int| 0 <= k < a.len() implies elements_normalised(b, 0)[k]
                == #[trigger] b[k] by {
                normalising_twice(a[k]);
            }
            assert(elements_normalised(b, 0) =~= b);
        },
        Json::Object(m) => {
            let b = members_normalised(m, 0);
            members_normalised_each(m, 0);
            members_normalised_each(b, 0);
            assert forall|k: int| 0 <= k < m.len() implies members_normalised(b, 0)[k]
                == #[trigger] b[k] by {
                normalising_twice(m[k].1);
            }
            assert(members_normalised(b, 0) =~= b);
        },
        _ => {},
    }
}

/// Collapse integer-valued floats to integers throughout a value.
///
/// JSON keeps `1.0` as a float, but the converter follows JavaScript where it is
/// the integer `1`. This walks the tree so structural comparisons match.
pub fn normalise_numbers(value: &mut JsonValue)
    ensures
        final(value)@ == normalised(old(value)@),
    decreases json::height(old(value)@),
{
    broadcast use value::array_view;

    match value {
        JsonValue::Number(n) => {
            *n = normalise_number(n);
        },
        JsonValue::Array(list) => {
            let ghost a = value::views(list@);
            let mut i: usize = 0;
            while i < list.len()
                invariant
                    i <= list@.len(),
                    list@.len() == a.len(),
                    old(value)@ == Json::Array(a),
                    forall|k: int| 0 <= k < i ==> (#[trigger] list@[k])@ == normalised(a[k]),
                    forall|k: int| i <= k < a.len() ==> (#[trigger] list@[k])@ == a[k],
                decreases list@.len() - i,
            {
                proof {
                    laws::element_is_lower(a, i as int);
                }
                normalise_numbers(&mut list[i]);
                i += 1;
            }
            proof {
                elements_normalised_each(a, 0);
                assert(value::views(list@) =~= elements_normalised(a, 0));
            }
        },
        JsonValue::Object(map) => {
            let ghost m = map@;
            let n: usize = map.len();
            let mut i: usize = 0;
            while i < n
                invariant
                    i <= n,
                    n == map@.len(),
                    n == m.len(),
                    old(value)@ == Json::Object(m),
                    json::distinct(m),
                    forall|k: int|
                        0 <= k < i ==> #[trigger] map@[k] == (m[k].0, normalised(m[k].1)),
                    forall|k: int| i <= k < n ==> #[trigger] map@[k] == m[k],
                decreases n - i,
            {
                proof {
                    laws::index_is_first(m, m[i as int].0, 0, i as int);
                    laws::member_is_lower(m, m[i as int].0);
                    assert(map@[i as int] == m[i as int]);
                }
                normalise_numbers(map.value_at_mut(i));
                i += 1;
            }
            proof {
                members_normalised_each(m, 0);
                assert(map@ =~= members_normalised(m, 0));
            }
        },
        _ => {},
    }
}

// --- YAML documents --------------------------------------------------------

/// The string form of a mapping key. A key that is a sequence, a mapping or
/// tagged is its YAML text without the white space around it.
pub open spec fn key_text(y: Yaml) -> Text {
    match y {
        Yaml::String(s) => s,
        Yaml::Bool(true) => "true"@,
        Yaml::Bool(false) => "false"@,
        Yaml::Number(_, t) => t,
        Yaml::Null => "null"@,
        _ => text::trimmed(serial::yaml_source(y)),
    }
}

/// The JSON document that a YAML document stands for. Keys are their string
/// forms, where a later key replaces an equal earlier one. A tag is dropped. A
/// number without a finite value is null.
pub open spec fn converted(y: Yaml) -> Json
    decreases y, 0nat,
{
    match y {
        Yaml::Null => Json::Null,
        Yaml::Bool(b) => Json::Bool(b),
        Yaml::Number(Some(n), _) => Json::Number(number_normalised(n)),
        Yaml::Number(None, _) => Json::Null,
        Yaml::String(s) => Json::String(s),
        Yaml::Sequence(a) => Json::Array(sequence_converted(a, 0)),
        Yaml::Mapping(m) => Json::Object(mapping_converted(m, 0, Seq::empty())),
        Yaml::Tagged(_, t) => converted(*t),
    }
}

/// The elements of a sequence from position `i` on.
pub open spec fn sequence_converted(a: Seq<Yaml>, i: nat) -> Seq<Json>
    decreases a, a.len() - i,
{
    if i >= a.len() {
        Seq::empty()
    } else {
        seq![converted(a[i as int])] + sequence_converted(a, i + 1)
    }
}

/// The members with the entries of a mapping from position `i` on.
pub open spec fn mapping_converted(m: Seq<(Yaml, Yaml)>, i: nat, members: Members) -> Members
    decreases m, m.len() - i,
{
    if i >= m.len() {
        members
    } else {
        mapping_converted(
            m,
            i + 1,
            json::insert(members, key_text(m[i as int].0), converted(m[i as int].1)),
        )
    }
}

/// The converted elements are the elements, each converted.
proof fn sequence_converted_each(a: Seq<Yaml>, i: nat)
    requires
        i <= a.len(),
    ensures
        sequence_converted(a, i).len() == a.len() - i,
        forall|k: int|
            0 <= k < a.len() - i ==> #[trigger] sequence_converted(a, i)[k] == converted(a[i + k]),
    decreases a.len() - i,
{
    if i < a.len() {
        sequence_converted_each(a, i + 1);
        assert forall|k: int| 0 <= k < a.len() - i implies #[trigger] sequence_converted(a, i)[k]
            == converted(a[i + k]) by {
            if k > 0 {
                assert(sequence_converted(a, i)[k] == sequence_converted(a, i + 1)[k - 1]);
            }
        }
    }
}

/// Convert a YAML mapping key to its string form.
fn key_to_string(key: &serde_yaml::Value) -> (r: String)
    ensures
        r@ == key_text(serial::yaml_document(*key)),
{
    match serial::open_yaml(key) {
        OpenedYaml::String(s) => s.clone(),
        OpenedYaml::Bool(b) => if b {
            "true".to_owned()
        } else {
            "false".to_owned()
        },
        OpenedYaml::Number(n) => serial::yaml_number_text(n),
        OpenedYaml::Null => "null".to_owned(),
        _ => text::trim(serial::write_yaml_value(key).as_str()),
    }
}

/// Render a YAML number as a JSON number.
///
/// Integer-valued floats such as `1.0` collapse to integers. JavaScript has one
/// number type, so the converter treats `1.0` and `1` as the same value. The
/// collapse keeps structural comparisons aligned with that behaviour.
fn number_to_json(n: &serde_yaml::Number) -> (r: JsonValue)
    ensures
        r@ == converted(
            Yaml::Number(serial::yaml_number(*n).0, serial::yaml_number(*n).1),
        ),
{
    match serial::from_yaml_number(n) {
        Some(x) => JsonValue::Number(normalise_number(&x)),
        None => JsonValue::Null,
    }
}

/// Convert a YAML value into a [`JsonValue`].
///
/// Mapping keys are coerced to strings. Numeric and boolean keys become their
/// textual form, matching how JSON objects key everything by string.
fn to_json(value: &serde_yaml::Value) -> (r: JsonValue)
    ensures
        r@ == converted(serial::yaml_document(*value)),
    decreases serial::yaml_document(*value),
{
    let ghost y = serial::yaml_document(*value);
    match serial::open_yaml(value) {
        OpenedYaml::Null => JsonValue::Null,
        OpenedYaml::Bool(b) => JsonValue::Bool(b),
        OpenedYaml::Number(n) => number_to_json(n),
        OpenedYaml::String(s) => JsonValue::String(s.clone()),
        OpenedYaml::Sequence(a) => {
            let ghost all = serial::yaml_documents(a@);
            let mut out: Vec<JsonValue> = Vec::new();
            let mut i: usize = 0;
            while i < a.len()
                invariant
                    i <= a@.len(),
                    all == serial::yaml_documents(a@),
                    y == serial::yaml_document(*value),
                    y == Yaml::Sequence(all),
                    out@.len() == i,
                    forall|k: int| 0 <= k < i ==> (#[trigger] out@[k])@ == converted(all[k]),
                decreases a@.len() - i,
            {
                assert(decreases_to!(y => y->Sequence_0[i as int]));
                out.push(to_json(&a[i]));
                i += 1;
            }
            proof {
                sequence_converted_each(all, 0);
                assert(value::views(out@) =~= sequence_converted(all, 0));
            }
            JsonValue::array(out)
        },
        OpenedYaml::Mapping(m) => {
            let ghost all = serial::yaml_entries(m@);
            let mut out = Object::new();
            let mut i: usize = 0;
            while i < m.len()
                invariant
                    i <= m@.len(),
                    all == serial::yaml_entries(m@),
                    y == serial::yaml_document(*value),
                    y == Yaml::Mapping(all),
                    mapping_converted(all, 0, Seq::empty()) == mapping_converted(
                        all,
                        i as nat,
                        out@,
                    ),
                decreases m@.len() - i,
            {
                assert(decreases_to!(y => y->Mapping_0[i as int].1));
                let key = key_to_string(m[i].0);
                out.insert(key.as_str(), to_json(m[i].1));
                i += 1;
            }
            JsonValue::Object(out)
        },
        OpenedYaml::Tagged(_, t) => to_json(t),
    }
}

// --- parsing ---------------------------------------------------------------

/// The document of a YAML text, or the message of the failure.
pub open spec fn yaml_parsed(s: Text) -> Result<Json, Text> {
    match serial::yaml_read(s) {
        Ok(y) => Ok(converted(y)),
        Err(message) => Err(message),
    }
}

/// The document of a JSON or a YAML text, or the message of the failure.
pub open spec fn parsed(s: Text) -> Result<Json, Text> {
    match serial::json_read(s) {
        Some(j) => Ok(normalised(j)),
        None => yaml_parsed(s),
    }
}

/// What a parse gives, over the models.
pub open spec fn outcome(r: Result<JsonValue, S2OError>) -> Result<Json, Text> {
    match r {
        Ok(v) => Ok(v@),
        Err(e) => Err(e.message@),
    }
}

/// Parse `text` as JSON, then YAML.
///
/// Returns the parsed value, or an error when neither parse yields a value.
pub fn parse(text: &str) -> (r: Result<JsonValue, S2OError>)
    ensures
        outcome(r) == parsed(text@),
{
    if let Some(mut value) = serial::from_json_text(text) {
        normalise_numbers(&mut value);
        return Ok(value);
    }
    parse_yaml(text)
}

/// Parse `text` as YAML only.
pub fn parse_yaml(text: &str) -> (r: Result<JsonValue, S2OError>)
    ensures
        outcome(r) == yaml_parsed(text@),
{
    match serial::read_yaml(text) {
        Ok(y) => Ok(to_json(&y)),
        Err(e) => Err(S2OError { message: serial::describe_yaml_error(&e) }),
    }
}

/// Serialize a value to YAML text.
pub fn stringify(value: &JsonValue) -> (r: String)
    ensures
        r@ == serial::yaml_text(value@),
{
    serial::to_yaml_text(value)
}

// --- anchors ---------------------------------------------------------------

/// Where a comment starts at or after position `i`, or the end of the line. A
/// `#` within quotes starts none.
pub open spec fn comment_start(line: Text, i: int, in_single: bool, in_double: bool) -> int
    decreases line.len() - i,
{
    if i >= line.len() {
        line.len() as int
    } else if line[i] == '\'' && !in_double {
        comment_start(line, i + 1, !in_single, in_double)
    } else if line[i] == '"' && !in_single {
        comment_start(line, i + 1, in_single, !in_double)
    } else if line[i] == '#' && !in_single && !in_double {
        i
    } else {
        comment_start(line, i + 1, in_single, in_double)
    }
}

/// The line without an inline comment.
pub open spec fn uncommented(line: Text) -> Text {
    line.take(comment_start(line, 0, false, false))
}

/// Whether a marker at position `i` can start a token.
pub open spec fn token_may_start(line: Text, i: int) -> bool {
    i == 0 || text::white_space(line[i - 1]) || line[i - 1] == '[' || line[i - 1] == '{' || line[i
        - 1] == ','
}

/// Whether `c` belongs to the name of an anchor.
pub open spec fn anchor_char(c: char) -> bool {
    text::alphanumeric(c) || c == '-' || c == '_'
}

/// The end of the name that starts at `i`.
pub open spec fn name_end(line: Text, i: int) -> int
    decreases line.len() - i,
{
    if 0 <= i < line.len() && anchor_char(line[i]) {
        name_end(line, i + 1)
    } else {
        i
    }
}

/// The names that follow a marker, from position `i` on.
pub open spec fn tokens_from(line: Text, marker: char, i: int) -> Seq<Text>
    decreases line.len() - i,
{
    if i < 0 || i >= line.len() {
        Seq::empty()
    } else if line[i] == marker && token_may_start(line, i) {
        let j = name_end(line, i + 1);
        if j <= i + 1 || j > line.len() {
            tokens_from(line, marker, i + 1)
        } else {
            seq![line.subrange(i + 1, j)] + tokens_from(line, marker, j)
        }
    } else {
        tokens_from(line, marker, i + 1)
    }
}

/// The names that follow a marker on the lines from position `i` on.
pub open spec fn names_on(lines: Seq<Text>, marker: char, i: int) -> Seq<Text>
    decreases lines.len() - i,
{
    if i < 0 || i >= lines.len() {
        Seq::empty()
    } else {
        tokens_from(uncommented(lines[i]), marker, 0) + names_on(lines, marker, i + 1)
    }
}

/// Whether some `*name` of the text has an `&name`.
pub open spec fn anchored(s: Text) -> bool {
    let lines = text::pieces(s, '\n');
    exists|name: Text| #[trigger]
        names_on(lines, '*', 0).contains(name) && names_on(lines, '&', 0).contains(name)
}

/// Drop an inline `#` comment, ignoring `#` inside quotes.
fn strip_comment(line: &str) -> (r: String)
    ensures
        r@ == uncommented(line@),
{
    let chars = text::to_chars(line);
    let mut in_single = false;
    let mut in_double = false;
    let mut i: usize = 0;
    while i < chars.len()
        invariant
            i <= chars@.len(),
            chars@ == line@,
            comment_start(line@, 0, false, false) == comment_start(
                line@,
                i as int,
                in_single,
                in_double,
            ),
        decreases chars@.len() - i,
    {
        let c = chars[i];
        if c == '\'' && !in_double {
            in_single = !in_single;
        } else if c == '"' && !in_single {
            in_double = !in_double;
        } else if c == '#' && !in_single && !in_double {
            return text::take(line, i);
        }
        i += 1;
    }
    assert(line@.take(line@.len() as int) =~= line@);
    line.to_owned()
}

/// Collect names that follow `marker`, like `&name` or `*name`.
fn collect_tokens(line: &str, marker: char, out: &mut Vec<String>)
    ensures
        json::texts(final(out)@) == json::texts(old(out)@) + tokens_from(line@, marker, 0),
{
    let chars = text::to_chars(line);
    let ghost all = json::texts(out@) + tokens_from(line@, marker, 0);
    let mut i: usize = 0;
    while i < chars.len()
        invariant
            i <= chars@.len(),
            chars@ == line@,
            all =~= json::texts(out@) + tokens_from(line@, marker, i as int),
        decreases chars@.len() - i,
    {
        if chars[i] == marker && (i == 0 || chars[i - 1].is_whitespace() || chars[i - 1] == '['
            || chars[i - 1] == '{' || chars[i - 1] == ',') {
            let mut j: usize = i + 1;
            while j < chars.len() && (chars[j].is_alphanumeric() || chars[j] == '-' || chars[j]
                == '_')
                invariant
                    i < j <= chars@.len(),
                    chars@ == line@,
                    name_end(line@, i + 1) == name_end(line@, j as int),
                decreases chars@.len() - j,
            {
                j += 1;
            }
            if j > i + 1 {
                let ghost before = json::texts(out@);
                out.push(line.substring_char(i + 1, j).to_owned());
                assert(json::texts(out@) =~= before.push(line@.subrange(i + 1, j as int)));
            }
            i = j;
        } else {
            i += 1;
        }
    }
    assert(tokens_from(line@, marker, i as int) =~= Seq::empty());
}

/// Whether the YAML text uses an anchor that an alias later references.
///
/// The deserializer expands aliases into independent copies, so the shared
/// identity that an anchor creates is gone by the time the document is a
/// [`JsonValue`]. This text scan recovers the signal the converter needs to
/// reject anchors when they are not allowed. It looks for an anchor `&name`
/// paired with a matching alias `*name`, skipping flow scalars and comments at a
/// coarse level.
pub fn has_alias(text: &str) -> (b: bool)
    ensures
        b == anchored(text@),
{
    let lines = text::split(text, '\n');
    let ghost ls = json::texts(lines@);
    let mut anchors: Vec<String> = Vec::new();
    let mut aliases: Vec<String> = Vec::new();
    let mut i: usize = 0;
    while i < lines.len()
        invariant
            i <= lines@.len(),
            ls == json::texts(lines@),
            names_on(ls, '&', 0) =~= json::texts(anchors@) + names_on(ls, '&', i as int),
            names_on(ls, '*', 0) =~= json::texts(aliases@) + names_on(ls, '*', i as int),
        decreases lines@.len() - i,
    {
        let line = strip_comment(lines[i].as_str());
        assert(ls[i as int] == lines@[i as int]@);
        collect_tokens(line.as_str(), '&', &mut anchors);
        collect_tokens(line.as_str(), '*', &mut aliases);
        i += 1;
    }
    assert(names_on(ls, '&', i as int) =~= Seq::empty());
    assert(names_on(ls, '*', i as int) =~= Seq::empty());
    assert(names_on(ls, '&', 0) =~= json::texts(anchors@));
    assert(names_on(ls, '*', 0) =~= json::texts(aliases@));
    let mut k: usize = 0;
    while k < aliases.len()
        invariant
            k <= aliases@.len(),
            ls == text::pieces(text@, '\n'),
            names_on(ls, '&', 0) == json::texts(anchors@),
            names_on(ls, '*', 0) == json::texts(aliases@),
            forall|q: int|
                0 <= q < k ==> !json::texts(anchors@).contains(#[trigger] json::texts(aliases@)[q]),
        decreases aliases@.len() - k,
    {
        assert(json::texts(aliases@)[k as int] == aliases@[k as int]@);
        if common::list_contains(&anchors, aliases[k].as_str()) {
            assert(names_on(ls, '*', 0).contains(aliases@[k as int]@));
            return true;
        }
        k += 1;
    }
    false
}

} // verus!
