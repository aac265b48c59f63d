use repo_archiver::menu::parse_choice;

#[test]
fn valid_choice_yields_zero_based_index() {
    assert_eq!(parse_choice("2", 3), Some(1));
    assert_eq!(parse_choice("1", 3), Some(0));
    assert_eq!(parse_choice("3", 3), Some(2));
}

#[test]
fn out_of_range_choices_are_rejected() {
    assert_eq!(parse_choice("0", 3), None);
    assert_eq!(parse_choice("4", 3), None);
    assert_eq!(parse_choice("-1", 3), None);
    assert_eq!(parse_choice("1", 0), None, "an empty menu accepts nothing");
}

#[test]
fn non_numeric_input_is_rejected() {
    assert_eq!(parse_choice("x", 3), None);
    assert_eq!(parse_choice("", 3), None);
    assert_eq!(parse_choice("   ", 3), None);
    assert_eq!(parse_choice("2x", 3), None);
    assert_eq!(parse_choice("1 2", 3), None);
}

#[test]
fn input_is_trimmed_before_parsing() {
    assert_eq!(parse_choice("  2  ", 3), Some(1));
    assert_eq!(parse_choice("\t2\n", 3), Some(1));
    assert_eq!(parse_choice("\u{a0}2\u{3000}", 3), Some(1), "trimming is by Unicode whitespace");
}

#[test]
fn explicit_plus_sign_is_accepted() {
    assert_eq!(parse_choice("+2", 3), Some(1));
}

#[test]
fn sign_without_digits_is_rejected() {
    assert_eq!(parse_choice("+", 3), None);
    assert_eq!(parse_choice("-", 3), None);
}

#[test]
fn numbers_beyond_the_integer_type_are_rejected() {
    assert_eq!(parse_choice("2147483647", 3), None, "in range for the type, not the menu");
    assert_eq!(parse_choice("2147483648", 3), None);
    assert_eq!(parse_choice("99999999999999999999", 3), None);
}
