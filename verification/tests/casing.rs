use heck::casing::{has_simple_casing, maps_simply};
use heck::TitleCase;

#[test]
fn ascii_letters_and_digits_map_simply() {
    for c in ('a'..='z').chain('A'..='Z').chain('0'..='9') {
        assert!(maps_simply(c), "{}", c);
    }
}

#[test]
fn letters_beyond_ascii_may_map_simply() {
    assert!(maps_simply('é'));
    assert!(maps_simply('Ω'));
    assert!(maps_simply('я'));
    assert!(maps_simply('中'));
}

#[test]
fn a_form_of_two_characters_is_not_simple() {
    assert!(!maps_simply('ß'));
    assert!(!maps_simply('\u{0130}'));
}

#[test]
fn a_form_of_another_class_is_not_simple() {
    // a lowercase letter without an uppercase form
    assert!(!maps_simply('\u{00AA}'));
    // a letter without case whose uppercase form has one
    assert!(!maps_simply('\u{01C5}'));
}

#[test]
fn texts_with_simple_casing() {
    assert!(has_simple_casing(""));
    assert!(has_simple_casing("-- .. __"));
    assert!(has_simple_casing("CamelCase_1 and more"));
    assert!(has_simple_casing("élan vital, 中文"));
}

#[test]
fn texts_without_simple_casing() {
    assert!(!has_simple_casing("straße"));
    assert!(!has_simple_casing("-- ß"));
}

#[test]
fn simple_casing_makes_title_case_idempotent() {
    for text in ["CamelCase_1 and more", "HTTPResponse2xx", "élanVital 中文", "a-b_c d"] {
        assert!(has_simple_casing(text));
        let once = text.to_title_case();
        assert_eq!(once.to_title_case(), once);
    }
}

#[test]
fn without_simple_casing_a_second_conversion_may_differ() {
    assert!(!has_simple_casing("ß"));
    let once = "ß".to_title_case();
    assert_eq!(once, "SS");
    assert_eq!(once.to_title_case(), "Ss");
}
