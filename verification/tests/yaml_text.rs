//! JSON and YAML text.

use swagger2openapi::convert::convert_str;
use swagger2openapi::number::Parts;
use swagger2openapi::serial::{from_json_text, from_serde, to_json_text, to_serde};
use swagger2openapi::value::JsonValue;
use swagger2openapi::yaml::{collapse, has_alias, normalise_numbers, parse, parse_yaml};
use swagger2openapi::Options;

/// The value of a JSON text.
fn json(text: &str) -> JsonValue {
    from_json_text(text).expect("a JSON text")
}

fn is_float(value: &JsonValue) -> bool {
    match value {
        JsonValue::Number(n) => matches!(n.parts(), Parts::Float { .. }),
        _ => false,
    }
}

#[test]
fn json_is_tried_before_yaml() {
    assert_eq!(parse("{\"a\": [1, true, null]}").unwrap(), json(r#"{ "a": [1, true, null] }"#));
    assert_eq!(parse("a:\n  - 1\n  - true\n  - ~\n").unwrap(), json(r#"{ "a": [1, true, null] }"#));
    assert!(parse("a: [1").is_err());
    assert!(!parse("a: [1").unwrap_err().message.is_empty());
}

#[test]
fn whole_floats_collapse_to_integers() {
    let mut v = json("[1.0, -3.0, 2.5, -0.0, 1e3, 1e19, 9223372036854775808.0]");
    normalise_numbers(&mut v);
    let list = v.as_array().unwrap();
    assert_eq!(to_json_text(&list[0]), "1");
    assert_eq!(to_json_text(&list[1]), "-3");
    assert_eq!(to_json_text(&list[2]), "2.5");
    assert_eq!(to_json_text(&list[3]), "0");
    assert_eq!(to_json_text(&list[4]), "1000");
    assert!(is_float(&list[5]));
    assert_eq!(to_json_text(&list[6]), "9223372036854775807");
    assert!(!is_float(&list[0]) && is_float(&list[2]));
    // A second pass changes nothing.
    let once = v.clone();
    normalise_numbers(&mut v);
    assert_eq!(v, once);
}

#[test]
fn binary64_numbers_collapse_when_whole() {
    assert_eq!(collapse((1.0f64).to_bits()), Some(1));
    assert_eq!(collapse((-1.0f64).to_bits()), Some(-1));
    assert_eq!(collapse((0.5f64).to_bits()), None);
    assert_eq!(collapse((0.0f64).to_bits()), Some(0));
    assert_eq!(collapse((-0.0f64).to_bits()), Some(0));
    assert_eq!(collapse(f64::MIN_POSITIVE.to_bits()), None);
    assert_eq!(collapse(1), None);
    assert_eq!(collapse((4503599627370497.0f64).to_bits()), Some(4503599627370497));
    assert_eq!(collapse((2251799813685248.5f64).to_bits()), None);
    assert_eq!(collapse(0x4000_0000_0000_0000), Some(2));
    assert_eq!(collapse((9223372036854774784.0f64).to_bits()), Some(9223372036854774784));
    assert_eq!(collapse((9223372036854775808.0f64).to_bits()), Some(i64::MAX));
    assert_eq!(collapse((-9223372036854775808.0f64).to_bits()), Some(i64::MIN));
    assert_eq!(collapse((-9223372036854777856.0f64).to_bits()), None);
    assert_eq!(collapse((1.0e300f64).to_bits()), None);
    assert_eq!(collapse(f64::INFINITY.to_bits()), None);
    assert_eq!(collapse(f64::NAN.to_bits()), None);
}

#[test]
fn yaml_keys_become_strings() {
    let v = parse_yaml("200: ok\ntrue: yes it is\n~: none\n1.5: half\nname: n\n").unwrap();
    assert_eq!(v.get_str("200"), Some("ok"));
    assert_eq!(v.get_str("true"), Some("yes it is"));
    assert_eq!(v.get_str("null"), Some("none"));
    assert_eq!(v.get_str("1.5"), Some("half"));
    assert_eq!(v.get_str("name"), Some("n"));
}

#[test]
fn yaml_keys_that_are_no_scalars_become_their_text() {
    let v = parse_yaml("? [a, b]\n: list\n").unwrap();
    assert_eq!(v.get_str("- a\n- b"), Some("list"));
}

#[test]
fn yaml_numbers_and_tags() {
    let v = parse_yaml("a: 1.0\nb: 1.5\nc: .inf\nd: .nan\ne: !note text\nf: 18446744073709551615\ng: -7\n").unwrap();
    assert_eq!(to_json_text(v.get("a").unwrap()), "1");
    assert_eq!(to_json_text(v.get("b").unwrap()), "1.5");
    assert!(v.get("c").unwrap().is_null());
    assert!(v.get("d").unwrap().is_null());
    assert_eq!(v.get_str("e"), Some("text"));
    assert_eq!(to_json_text(v.get("f").unwrap()), "18446744073709551615");
    assert_eq!(to_json_text(v.get("g").unwrap()), "-7");
}

#[test]
fn stringify_writes_yaml() {
    assert_eq!(swagger2openapi::yaml::stringify(&json(r#"{ "a": [1, "x"], "b": {} }"#)), "a:\n- 1\n- x\nb: {}\n");
    let v = json(r#"{ "swagger": "2.0", "paths": { "/p": { "get": { "x-n": 3 } } } }"#);
    assert_eq!(parse(&swagger2openapi::yaml::stringify(&v)).unwrap(), v);
}

#[test]
fn aliases_need_their_anchor() {
    assert!(has_alias("a: &x 1\nb: *x\n"));
    assert!(!has_alias("a: &x 1\nb: *y\n"));
    assert!(!has_alias("a: &x 1\n"));
    assert!(has_alias("l: [&q {a: 1}, *q]\n"));
    assert!(has_alias("a: &größe 1\nb: *größe\n"));
    // Comments hide tokens, quotes hide the comment sign.
    assert!(!has_alias("a: &x 1 # *x\n"));
    assert!(has_alias("a: &x '#' \nb: *x\n"));
    // A marker within a word is no token.
    assert!(!has_alias("a: b&x 1\nc: 2*x\n"));
    assert!(has_alias("a: &x 1\r\nb: *x\r\n"));
}

#[test]
fn serde_values_come_back() {
    let v = json(r#"{ "n": [0, -1, 1.5, 18446744073709551615], "s": "\u00e9", "o": { "": null, "t": true } }"#);
    assert_eq!(from_serde(&to_serde(&v)), v);
    let written = serde_json::to_string(&to_serde(&v)).unwrap();
    assert_eq!(written, to_json_text(&v));
    assert_eq!(from_json_text(&written).unwrap(), v);
}

#[test]
fn conversions_note_their_source() {
    let text = "swagger: '2.0'\ninfo: &i\n  title: Demo\n  version: '1.0.0'\npaths: {}\nx-info: *i\n";
    let mut options = Options::new();
    let err = convert_str(text, &mut options).unwrap_err();
    assert_eq!(err.message, "YAML anchor or merge key");
    assert!(options.had_anchors && options.source_yaml);
    assert_eq!(options.text, text);

    let mut allowed = Options::new();
    allowed.anchors = true;
    convert_str(text, &mut allowed).unwrap();
    assert_eq!(allowed.openapi.get("x-info"), allowed.openapi.get("info"));
}
