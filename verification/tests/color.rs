use ui_kit::color::{parse_color, parse_hex_component, rgb_to_hex};
use ui_kit::RgbColor;

fn rgba(r: u8, g: u8, b: u8, alpha: u8) -> RgbColor {
    RgbColor { r, g, b, alpha }
}

#[test]
fn hex_digits_read_in_either_case() {
    assert_eq!(parse_hex_component(b'0'), Some(0));
    assert_eq!(parse_hex_component(b'9'), Some(9));
    assert_eq!(parse_hex_component(b'a'), Some(10));
    assert_eq!(parse_hex_component(b'F'), Some(15));
    assert_eq!(parse_hex_component(b'g'), None);
}

#[test]
fn colours_are_read_in_every_length() {
    assert_eq!(parse_color("#3b82f6"), rgba(59, 130, 246, 255));
    assert_eq!(parse_color("  #FFF \n"), rgba(255, 255, 255, 255));
    assert_eq!(parse_color("#f008"), rgba(255, 0, 0, 136));
    assert_eq!(parse_color("#11223380"), rgba(17, 34, 51, 128));
    assert_eq!(parse_color("#1122334"), rgba(17, 34, 51, 255));
    assert_eq!(parse_color("#zz0000"), rgba(0, 0, 0, 255));
}

#[test]
fn unreadable_colours_fall_back_to_blue() {
    let blue = rgba(59, 130, 246, 255);
    assert_eq!(parse_color("red"), blue);
    assert_eq!(parse_color(""), blue);
    assert_eq!(parse_color("#12"), blue);
    assert_eq!(parse_color("#12345"), blue);
    // bytes, not characters, decide the form: "é" takes two
    assert_eq!(parse_color("#é1"), rgba(0, 0, 17, 255));
}

#[test]
fn colours_are_written_in_lower_case_hex() {
    assert_eq!(rgb_to_hex(rgba(59, 130, 246, 255)), "#3b82f6");
    assert_eq!(rgb_to_hex(rgba(0, 15, 255, 128)), "#000fff80");
}

#[test]
fn writing_then_reading_gives_the_colour_back() {
    for c in [rgba(1, 2, 3, 255), rgba(255, 254, 0, 0), rgba(16, 160, 171, 77)] {
        assert_eq!(parse_color(&rgb_to_hex(c)), c);
    }
}
