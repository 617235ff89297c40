use retort::const_util::{
    is_input_attribute_key_value_separator, is_input_close_angle_bracket,
    is_input_close_curly_bracket, is_input_forward_slash, is_input_from_keyword,
    is_input_import_keyword, is_input_null_literal, is_input_open_angle_bracket,
    is_input_open_curly_bracket, is_input_true_literal, is_input_undefined_literal,
    is_input_white_space_alias,
};
use retort::effects::component_will_unmount_runner;
use retort::text::{chars_of, str_eq, string_of};
use retort::util::{option_has_value, result_is_ok};

#[test]
fn literals_are_recognised() {
    assert!(is_input_true_literal("true"));
    assert!(!is_input_true_literal("True"));
    assert!(!is_input_true_literal("true "));
    assert!(is_input_undefined_literal("undefined"));
    assert!(!is_input_undefined_literal("null"));
    assert!(is_input_null_literal("null"));
    assert!(!is_input_null_literal(""));
    assert!(is_input_white_space_alias(""));
    assert!(!is_input_white_space_alias(" "));
    assert!(is_input_attribute_key_value_separator("="));
    assert!(!is_input_attribute_key_value_separator("=="));
    assert!(is_input_forward_slash("/"));
    assert!(!is_input_forward_slash("\\"));
    assert!(is_input_import_keyword("import"));
    assert!(!is_input_import_keyword("improt"));
    assert!(is_input_from_keyword("from"));
    assert!(!is_input_from_keyword("form"));
}

#[test]
fn brackets_are_recognised() {
    assert!(is_input_open_curly_bracket('{'));
    assert!(!is_input_open_curly_bracket('}'));
    assert!(is_input_close_curly_bracket('}'));
    assert!(!is_input_close_curly_bracket('{'));
    assert!(is_input_open_angle_bracket('<'));
    assert!(!is_input_open_angle_bracket('>'));
    assert!(is_input_close_angle_bracket('>'));
    assert!(!is_input_close_angle_bracket('<'));
}

#[test]
fn option_and_result_predicates() {
    assert!(option_has_value(&Some(3)));
    assert!(!option_has_value::<u8>(&None));
    assert!(result_is_ok::<u8, u8>(&Ok(1)));
    assert!(!result_is_ok::<u8, u8>(&Err(1)));
}

#[test]
fn unmount_runner_has_nothing_to_fail() {
    assert!(component_will_unmount_runner().is_ok());
}

#[test]
fn strings_and_characters_convert_both_ways() {
    let chars = chars_of("héllo");
    assert_eq!(chars, vec!['h', 'é', 'l', 'l', 'o']);
    assert_eq!(string_of(&chars, 1, 4), "éll");
    assert_eq!(string_of(&chars, 2, 2), "");
    assert!(str_eq("abc", "abc"));
    assert!(!str_eq("abc", "abd"));
    assert!(!str_eq("abc", "ab"));
}
