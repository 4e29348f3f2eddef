use ui_kit::otp::{otp_after_backspace, otp_after_input, otp_from_paste, otp_paste_focus};

#[test]
fn typing_a_digit_fills_its_box() {
    assert_eq!(otp_after_input("12", 6, 2, "7"), Some("127".to_string()));
    assert_eq!(otp_after_input("123456", 6, 0, "9"), Some("923456".to_string()));
    // The last character typed counts.
    assert_eq!(otp_after_input("", 4, 0, "58"), Some("8".to_string()));
}

#[test]
fn typing_into_a_gap_closes_it() {
    // Box 3 of an empty-tailed code: the spaces in between are dropped.
    assert_eq!(otp_after_input("1", 6, 3, "4"), Some("14".to_string()));
}

#[test]
fn typing_something_else_changes_nothing() {
    assert_eq!(otp_after_input("12", 6, 2, "a"), None);
    assert_eq!(otp_after_input("12", 6, 2, ""), None);
    assert_eq!(otp_after_input("12", 6, 2, "7x"), None);
}

#[test]
fn backspace_clears_a_filled_box() {
    assert_eq!(otp_after_backspace("1234", 6, 1), (Some("134".to_string()), false));
    assert_eq!(otp_after_backspace("1234", 6, 3), (Some("123".to_string()), false));
}

#[test]
fn backspace_in_an_empty_box_clears_the_one_before() {
    assert_eq!(otp_after_backspace("12", 6, 2), (Some("1".to_string()), true));
    assert_eq!(otp_after_backspace("12", 6, 4), (Some("12".to_string()), true));
}

#[test]
fn backspace_in_the_first_empty_box_does_nothing() {
    assert_eq!(otp_after_backspace("", 6, 0), (None, false));
}

#[test]
fn pasted_codes_are_cut_to_length() {
    assert_eq!(otp_from_paste("12345678", 6), "123456".to_string());
    assert_eq!(otp_from_paste("123", 6), "123".to_string());
    assert_eq!(otp_from_paste("", 6), "".to_string());
}

#[test]
fn focus_after_paste_lands_after_the_code_or_on_the_last_box() {
    assert_eq!(otp_paste_focus(3, 6), 3);
    assert_eq!(otp_paste_focus(5, 6), 5);
    assert_eq!(otp_paste_focus(6, 6), 5);
    assert_eq!(otp_paste_focus(0, 1), 0);
}
