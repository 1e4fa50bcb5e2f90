use nconv::group_digits;
use nconv::pad_width;

#[test]
fn pad_width_successfully_applies_padding() {
    assert_eq!(pad_width("42", 4), "0042");
    assert_eq!(pad_width("123", 5), "00123");
    assert_eq!(pad_width("7", 3), "007");
}

#[test]
fn pad_width_does_not_apply_padding_when_input_is_wide_enough() {
    assert_eq!(pad_width("123", 3), "123");
    assert_eq!(pad_width("456", 2), "456");
    assert_eq!(pad_width("789", 1), "789");
}

#[test]
fn pad_width_successfully_pads_empty_str() {
    assert_eq!(pad_width("", 3), "000");
    assert_eq!(pad_width("", 1), "0");
    assert_eq!(pad_width("0", 2), "00");
}

#[test]
fn pad_width_ignores_request_for_zero_padding() {
    assert_eq!(pad_width("123", 0), "123");
}

#[test]
fn pad_width_successuly_pads_large_numbers() {
    assert_eq!(
        pad_width("12345678901234567890", 25),
        "0000012345678901234567890"
    );
    assert_eq!(
        pad_width("12345678901234567890", 20),
        "12345678901234567890"
    );
}

#[test]
fn pad_width_is_idempotent() {
    let once = pad_width("42", 7);
    let twice = pad_width(&once, 7);
    assert_eq!(twice, once);
    assert_eq!(once.len(), 7);
    // The result is as long as the wider of input and width.
    assert_eq!(pad_width("12345", 3).len(), 5);
}

#[test]
fn group_digits_successfully_groups_digits() {
    assert_eq!(group_digits("1234", 3), "1 234");
    assert_eq!(group_digits("123456", 3), "123 456");
    assert_eq!(group_digits("1234567", 3), "1 234 567");
}

#[test]
fn group_digits_can_handle_too_few_digits() {
    assert_eq!(group_digits("", 3), "");
    assert_eq!(group_digits("1", 3), "1");
    assert_eq!(group_digits("12", 3), "12");
    assert_eq!(group_digits("123", 3), "123");
}

#[test]
fn group_digits_successfully_groups_digits_of_diff_sizes() {
    assert_eq!(group_digits("1234", 2), "12 34");
    assert_eq!(group_digits("123456", 2), "12 34 56");
    assert_eq!(group_digits("12345", 4), "1 2345");
}

#[test]
fn group_digits_makes_exact_groupings() {
    assert_eq!(group_digits("123123", 3), "123 123");
    assert_eq!(group_digits("12341234", 4), "1234 1234");
}

#[test]
fn group_digits_groups_large_numbers_successfully() {
    assert_eq!(
        group_digits("1234567890123456789", 3),
        "1 234 567 890 123 456 789"
    );
    assert_eq!(
        group_digits("12345678901234567890", 4),
        "1234 5678 9012 3456 7890"
    );
}

#[test]
fn group_digits_with_zero_grouping_returns_the_input_unchanged() {
    assert_eq!(group_digits("1234567", 0), "1234567");
    assert_eq!(group_digits("", 0), "");
    assert_eq!(group_digits("0", 0), "0");
}

#[test]
fn group_digits_by_one_separates_every_digit() {
    assert_eq!(group_digits("1234", 1), "1 2 3 4");
}
