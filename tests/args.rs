use nonogram_batch::{is_number, parse_count, parse_usize, DEFAULT_COUNT};

#[test]
fn parse_plain_and_signed_numbers() {
    assert_eq!(parse_usize("42"), Some(42));
    assert_eq!(parse_usize("+7"), Some(7));
    assert_eq!(parse_usize("007"), Some(7));
    assert_eq!(parse_usize("18446744073709551615"), Some(usize::MAX));
}

#[test]
fn parse_rejects_non_numbers() {
    assert_eq!(parse_usize(""), None);
    assert_eq!(parse_usize("+"), None);
    assert_eq!(parse_usize("-1"), None);
    assert_eq!(parse_usize("12a"), None);
    assert_eq!(parse_usize(" 5"), None);
    assert_eq!(parse_usize("５"), None);
    assert_eq!(parse_usize("18446744073709551616"), None);
}

#[test]
fn parse_agrees_with_std() {
    for s in ["0", "5", "+10", "20", "x", "", "99999999999999999999", "+-1", "1_000"] {
        assert_eq!(parse_usize(s), s.parse::<usize>().ok(), "{}", s);
    }
}

#[test]
fn is_number_accepts_and_explains() {
    assert_eq!(is_number(String::from("15")), Ok(()));
    assert_eq!(
        is_number(String::from("-5")),
        Err(String::from("Number of puzzles, heights, and widths arguments must be numbers"))
    );
    assert_eq!(
        is_number(String::from("fifteen")),
        Err(String::from("Number of puzzles, heights, and widths arguments must be numbers"))
    );
}

#[test]
fn count_falls_back_to_default() {
    assert_eq!(parse_count("250"), 250);
    assert_eq!(parse_count("many"), DEFAULT_COUNT);
    assert_eq!(DEFAULT_COUNT, 10000);
}
