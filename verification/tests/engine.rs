use heck::segment::opens_word;
use heck::title::TitlePolicy;
use heck::transform::{transform, Policy};
use heck::unicode::{class_from, classify, CharClass};

#[test]
fn the_engine_runs_the_title_policy() {
    assert_eq!(transform("CamelCase", &TitlePolicy), "Camel Case");
    assert_eq!(transform("  kebab-case--here ", &TitlePolicy), "Kebab Case Here");
}

#[test]
fn empty_input_gives_empty_output_from_the_engine() {
    assert_eq!(transform("", &TitlePolicy), "");
    assert_eq!(transform("-- __  ..", &TitlePolicy), "");
}

#[test]
fn the_first_word_opens_like_every_other() {
    assert_eq!(transform("x", &TitlePolicy), "X");
    assert_eq!(transform("_x", &TitlePolicy), "X");
    assert_eq!(transform("_x_y", &TitlePolicy), "X Y");
}

#[test]
fn letters_without_case_cut_nothing() {
    assert_eq!(transform("中文abc", &TitlePolicy), "中文abc");
    assert_eq!(transform("1中a", &TitlePolicy), "1中a");
    assert_eq!(transform("中文 abc", &TitlePolicy), "中文 Abc");
}

#[test]
fn the_policy_is_told_of_each_word_and_each_character() {
    let mut out = String::new();
    TitlePolicy.boundary('w', &mut out);
    assert_eq!(out, "W");
    TitlePolicy.character('O', &mut out);
    assert_eq!(out, "Wo");
    TitlePolicy.boundary('n', &mut out);
    assert_eq!(out, "Wo N");
    TitlePolicy.character('E', &mut out);
    assert_eq!(out, "Wo Ne");
}

#[test]
fn the_first_character_written_is_a_capital() {
    let mut out = String::new();
    TitlePolicy.character('a', &mut out);
    assert_eq!(out, "A");
    TitlePolicy.character('B', &mut out);
    assert_eq!(out, "Ab");
}

#[test]
fn classify_tells_the_five_classes() {
    assert_eq!(classify('A'), CharClass::Uppercase);
    assert_eq!(classify('z'), CharClass::Lowercase);
    assert_eq!(classify('7'), CharClass::Digit);
    assert_eq!(classify(' '), CharClass::Separator);
    assert_eq!(classify('_'), CharClass::Separator);
    assert_eq!(classify('-'), CharClass::Separator);
    assert_eq!(classify('.'), CharClass::Separator);
    assert_eq!(classify(','), CharClass::Separator);
    assert_eq!(classify('中'), CharClass::Other);
    assert_eq!(classify('É'), CharClass::Uppercase);
    assert_eq!(classify('¾'), CharClass::Digit);
}

#[test]
fn the_class_goes_by_case_before_number() {
    assert_eq!(class_from(false, false, false, false), CharClass::Separator);
    assert_eq!(class_from(false, true, true, true), CharClass::Separator);
    assert_eq!(class_from(true, true, false, false), CharClass::Uppercase);
    assert_eq!(class_from(true, true, true, true), CharClass::Uppercase);
    assert_eq!(class_from(true, false, true, false), CharClass::Lowercase);
    assert_eq!(class_from(true, false, true, true), CharClass::Lowercase);
    assert_eq!(class_from(true, false, false, true), CharClass::Digit);
    assert_eq!(class_from(true, false, false, false), CharClass::Other);
}

#[test]
fn an_uppercase_numeral_is_an_uppercase_letter() {
    assert_eq!(classify('\u{2167}'), CharClass::Uppercase);
}

#[test]
fn a_separator_opens_no_word() {
    assert!(!opens_word(None, CharClass::Separator, None));
    assert!(!opens_word(Some(CharClass::Lowercase), CharClass::Separator, Some(CharClass::Lowercase)));
}

#[test]
fn the_first_character_opens_a_word() {
    assert!(opens_word(None, CharClass::Lowercase, None));
    assert!(opens_word(None, CharClass::Uppercase, Some(CharClass::Uppercase)));
    assert!(opens_word(None, CharClass::Digit, None));
    assert!(opens_word(None, CharClass::Other, None));
}

#[test]
fn a_word_opens_after_a_separator() {
    assert!(opens_word(Some(CharClass::Separator), CharClass::Lowercase, None));
    assert!(opens_word(Some(CharClass::Separator), CharClass::Uppercase, None));
    assert!(opens_word(Some(CharClass::Separator), CharClass::Digit, None));
    assert!(opens_word(Some(CharClass::Separator), CharClass::Other, None));
}

#[test]
fn a_word_opens_at_a_hump() {
    assert!(opens_word(Some(CharClass::Lowercase), CharClass::Uppercase, None));
    assert!(!opens_word(Some(CharClass::Lowercase), CharClass::Lowercase, None));
    assert!(!opens_word(Some(CharClass::Uppercase), CharClass::Lowercase, None));
}

#[test]
fn a_word_opens_at_the_last_capital_before_lowercase() {
    assert!(opens_word(Some(CharClass::Uppercase), CharClass::Uppercase, Some(CharClass::Lowercase)));
    assert!(!opens_word(Some(CharClass::Uppercase), CharClass::Uppercase, Some(CharClass::Uppercase)));
    assert!(!opens_word(Some(CharClass::Uppercase), CharClass::Uppercase, Some(CharClass::Digit)));
    assert!(!opens_word(Some(CharClass::Uppercase), CharClass::Uppercase, Some(CharClass::Separator)));
    assert!(!opens_word(Some(CharClass::Uppercase), CharClass::Uppercase, None));
}

#[test]
fn a_word_opens_between_digits_and_letters() {
    assert!(opens_word(Some(CharClass::Digit), CharClass::Uppercase, None));
    assert!(opens_word(Some(CharClass::Digit), CharClass::Lowercase, None));
    assert!(opens_word(Some(CharClass::Uppercase), CharClass::Digit, None));
    assert!(opens_word(Some(CharClass::Lowercase), CharClass::Digit, None));
    assert!(!opens_word(Some(CharClass::Digit), CharClass::Digit, None));
    assert!(!opens_word(Some(CharClass::Digit), CharClass::Other, None));
    assert!(!opens_word(Some(CharClass::Other), CharClass::Digit, None));
    assert!(!opens_word(Some(CharClass::Other), CharClass::Uppercase, None));
    assert!(!opens_word(Some(CharClass::Other), CharClass::Lowercase, None));
}
