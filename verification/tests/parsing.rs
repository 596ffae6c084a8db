use pixie_wasm::parse_rating;
use pixie_wasm::split_commas;

#[test]
fn rating_two_decimals() {
    assert_eq!(parse_rating("8.82"), 882);
}

#[test]
fn rating_one_decimal() {
    assert_eq!(parse_rating("6.5"), 650);
}

#[test]
fn rating_whole_number() {
    assert_eq!(parse_rating("8"), 800);
}

#[test]
fn rating_trailing_dot() {
    assert_eq!(parse_rating("8."), 800);
}

#[test]
fn rating_extra_decimals_truncate() {
    assert_eq!(parse_rating("7.999"), 799);
}

#[test]
fn rating_unparseable_defaults_to_zero() {
    assert_eq!(parse_rating(""), 0);
    assert_eq!(parse_rating("abc"), 0);
    assert_eq!(parse_rating("8.2.1"), 0);
    assert_eq!(parse_rating(".5"), 0);
    assert_eq!(parse_rating("-3"), 0);
    assert_eq!(parse_rating("12345678"), 0);
}

#[test]
fn rating_seven_digit_integer_part() {
    assert_eq!(parse_rating("9999999.99"), 999999999);
}

#[test]
fn split_keeps_pieces_in_order() {
    let parts = split_commas("comedy, action");
    assert_eq!(parts, vec!["comedy".to_string(), " action".to_string()]);
}

#[test]
fn split_keeps_empty_pieces() {
    assert_eq!(split_commas("a,,b"), vec!["a".to_string(), "".to_string(), "b".to_string()]);
    assert_eq!(split_commas(""), vec!["".to_string()]);
    assert_eq!(split_commas(","), vec!["".to_string(), "".to_string()]);
}

#[test]
fn split_without_comma_is_one_piece() {
    assert_eq!(split_commas("drama"), vec!["drama".to_string()]);
}
