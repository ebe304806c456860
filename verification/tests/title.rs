use heck::TitleCase;

#[test]
fn test1() {
    assert_eq!("CamelCase".to_title_case(), "Camel Case")
}

#[test]
fn test2() {
    assert_eq!("This is Human case.".to_title_case(), "This Is Human Case")
}

#[test]
fn test3() {
    assert_eq!(
        "MixedUp CamelCase, with some Spaces".to_title_case(),
        "Mixed Up Camel Case With Some Spaces"
    )
}

#[test]
fn test4() {
    assert_eq!(
        "mixed_up snake_case, with some _spaces".to_title_case(),
        "Mixed Up Snake Case With Some Spaces"
    )
}

#[test]
fn test5() {
    assert_eq!("kebab-case".to_title_case(), "Kebab Case")
}

#[test]
fn test6() {
    assert_eq!("SHOUTY_SNAKE_CASE".to_title_case(), "Shouty Snake Case")
}

#[test]
fn test7() {
    assert_eq!("snake_case".to_title_case(), "Snake Case")
}

#[test]
fn empty_input_gives_empty_output() {
    assert_eq!("".to_title_case(), "")
}

#[test]
fn separators_alone_give_empty_output() {
    assert_eq!(" _-., ".to_title_case(), "")
}

#[test]
fn a_single_word_is_capitalized() {
    assert_eq!("word".to_title_case(), "Word");
    assert_eq!("WORD".to_title_case(), "Word");
}

#[test]
fn a_whole_sentence() {
    let sentence = "We have always lived in slums and holes in the wall.";
    assert_eq!(
        sentence.to_title_case(),
        "We Have Always Lived In Slums And Holes In The Wall"
    );
}

#[test]
fn title_case_of_title_case_is_the_same() {
    for text in [
        "Camel Case",
        "This Is Human Case",
        "Mixed Up Camel Case With Some Spaces",
        "Shouty Snake Case",
        "Word 2 Vec",
        "A",
        "",
    ] {
        assert_eq!(text.to_title_case(), text);
    }
}

#[test]
fn converting_twice_is_converting_once() {
    for text in [
        "CamelCase",
        "mixed_up snake_case, with some _spaces",
        "HTTPResponse",
        "Word2Vec",
        "  --kebab-case--  ",
        "A_1B",
        "x",
    ] {
        let once = text.to_title_case();
        assert_eq!(once.to_title_case(), once);
    }
}

#[test]
fn a_run_of_separators_gives_one_space() {
    assert_eq!("a_b".to_title_case(), "A B");
    assert_eq!("a___b".to_title_case(), "A B");
    assert_eq!("a - _ . , b".to_title_case(), "A B");
    assert_eq!("one,  two;;three".to_title_case(), "One Two Three");
}

#[test]
fn separators_at_the_ends_leave_no_space() {
    assert_eq!("  word".to_title_case(), "Word");
    assert_eq!("word__".to_title_case(), "Word");
    assert_eq!("--two words..".to_title_case(), "Two Words");
}

#[test]
fn one_word_for_each_boundary() {
    let title = "oneTwo three_four-five6".to_title_case();
    assert_eq!(title, "One Two Three Four Five 6");
    assert_eq!(title.split(' ').count(), 6);
}

#[test]
fn acronym_ends_before_the_last_capital() {
    assert_eq!("HTTPResponse".to_title_case(), "Http Response");
    assert_eq!("ALLkinds".to_title_case(), "Al Lkinds");
    assert_eq!("HTTP".to_title_case(), "Http");
}

#[test]
fn digits_are_words_of_their_own() {
    assert_eq!("Word2Vec".to_title_case(), "Word 2 Vec");
    assert_eq!("abc123def".to_title_case(), "Abc 123 Def");
    assert_eq!("v2".to_title_case(), "V 2");
    assert_eq!("2001".to_title_case(), "2001");
}

#[test]
fn separator_then_digit_then_letter() {
    assert_eq!("A_1B".to_title_case(), "A 1 B");
}

#[test]
fn case_forms_of_more_than_one_character() {
    assert_eq!("ßtraße".to_title_case(), "SStraße");
    assert_eq!("SS".to_title_case(), "Ss");
}

#[test]
fn letters_outside_ascii() {
    assert_eq!("élanVital".to_title_case(), "Élan Vital");
    assert_eq!("ÉCOLE_NORMALE".to_title_case(), "École Normale");
}
