use chama::city::style::random_street_color;
use chama::validation::{number_box_error, parse_u64, textbox_error};

#[test]
fn numbers_are_parsed_like_unsigned_integers() {
    assert_eq!(parse_u64("0"), Some(0));
    assert_eq!(parse_u64("200"), Some(200));
    assert_eq!(parse_u64("+7"), Some(7));
    assert_eq!(parse_u64("007"), Some(7));
    assert_eq!(parse_u64("18446744073709551615"), Some(u64::MAX));
    assert_eq!(parse_u64("18446744073709551616"), None);
    assert_eq!(parse_u64(""), None);
    assert_eq!(parse_u64("+"), None);
    assert_eq!(parse_u64("-1"), None);
    assert_eq!(parse_u64("1 2"), None);
    assert_eq!(parse_u64("12a"), None);
    for text in ["0", "42", "+42", "4294967296", "x", "", "99999999999999999999"] {
        assert_eq!(parse_u64(text), text.parse::<u64>().ok());
    }
}

#[test]
fn number_box_refuses_values_out_of_range() {
    assert!(!number_box_error("200", 0, 2000));
    assert!(!number_box_error("0", 0, 2000));
    assert!(!number_box_error("2000", 0, 2000));
    assert!(number_box_error("2001", 0, 2000));
    assert!(number_box_error("abc", 0, 2000));
    assert!(number_box_error("", 0, 100));
}

#[test]
fn text_box_refuses_what_the_pattern_does_not_match() {
    assert_eq!(textbox_error("^[0-9]+$", "123"), Some(false));
    assert_eq!(textbox_error("^[0-9]+$", "12a"), Some(true));
    assert_eq!(textbox_error("", "anything"), Some(false));
    assert_eq!(textbox_error("foo(bar", "foo"), None);
}

#[test]
fn street_colors_are_below_255() {
    for _ in 0..100 {
        let (r, g, b) = random_street_color();
        assert!(r < 255 && g < 255 && b < 255);
    }
}
