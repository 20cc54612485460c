//! String helpers.

use swagger2openapi::common::{hash, sanitise, sanitise_all, to_camel_case, unique_only};

#[test]
fn sanitise_scrubs_first_component_only() {
    assert_eq!(sanitise("foo bar/baz qux"), "foo_bar/baz qux");
    assert_eq!(sanitise("a@b/c@d"), "a_b/c@d");
    assert_eq!(sanitise("name[]"), "nameArray");
}

#[test]
fn sanitise_all_joins_then_scrubs() {
    assert_eq!(sanitise_all("a/b c"), "a_b_c");
}

#[test]
fn hash_matches_javascript() {
    // The values that JavaScript gives.
    assert_eq!(hash(""), 0);
    assert_eq!(hash("a"), 97);
    assert_eq!(hash("hello"), 99162322);
}

#[test]
fn camel_case_drops_separators() {
    assert_eq!(to_camel_case("_body"), "Body");
    assert_eq!(to_camel_case("add-pet item"), "addPetItem");
}

#[test]
fn unique_keeps_first() {
    let input = vec!["a".to_string(), "b".to_string(), "a".to_string(), "c".to_string()];
    assert_eq!(unique_only(&input), vec!["a", "b", "c"]);
}
