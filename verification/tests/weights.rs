use nft_generator::text::{chars_of, find_first, find_last, matches_at};
use nft_generator::weight::{is_all_digits, parse_weight, parse_weight_chars, read_digits};

fn chars(text: &str) -> Vec<char> {
    text.chars().collect()
}

#[test]
fn whole_numbers_are_counted_in_millionths() {
    assert_eq!(parse_weight("50"), Some(50_000_000));
    assert_eq!(parse_weight("1"), Some(1_000_000));
    assert_eq!(parse_weight("007"), Some(7_000_000));
    assert_eq!(parse_weight("0"), Some(0));
}

#[test]
fn fractions_are_kept_to_six_places() {
    assert_eq!(parse_weight("12.5"), Some(12_500_000));
    assert_eq!(parse_weight("0.000001"), Some(1));
    assert_eq!(parse_weight("1.2345678"), Some(1_234_567));
    assert_eq!(parse_weight("0.0000009"), Some(0));
    assert_eq!(parse_weight("3.999999999"), Some(3_999_999));
}

#[test]
fn a_point_may_stand_first_or_last() {
    assert_eq!(parse_weight(".25"), Some(250_000));
    assert_eq!(parse_weight("5."), Some(5_000_000));
}

#[test]
fn a_sign_is_read() {
    assert_eq!(parse_weight("-3"), Some(-3_000_000));
    assert_eq!(parse_weight("+7"), Some(7_000_000));
    assert_eq!(parse_weight("-0.5"), Some(-500_000));
    assert_eq!(parse_weight("-0"), Some(0));
}

#[test]
fn what_is_no_number_is_refused() {
    assert_eq!(parse_weight(""), None);
    assert_eq!(parse_weight("."), None);
    assert_eq!(parse_weight("-"), None);
    assert_eq!(parse_weight("+."), None);
    assert_eq!(parse_weight("abc"), None);
    assert_eq!(parse_weight("1e3"), None);
    assert_eq!(parse_weight("1.2.3"), None);
    assert_eq!(parse_weight(" 5"), None);
    assert_eq!(parse_weight("5 "), None);
    assert_eq!(parse_weight("--5"), None);
    assert_eq!(parse_weight("5-"), None);
    assert_eq!(parse_weight("1.2x"), None);
    assert_eq!(parse_weight("1.2345678x"), None);
    assert_eq!(parse_weight("inf"), None);
}

#[test]
fn the_largest_weight_is_read_and_the_next_is_not() {
    assert_eq!(parse_weight("9223372036854.775807"), Some(i64::MAX));
    assert_eq!(parse_weight("9223372036854.775808"), None);
    assert_eq!(parse_weight("-9223372036854.775807"), Some(-i64::MAX));
    assert_eq!(parse_weight("9223372036855"), None);
    assert_eq!(parse_weight("99999999999999999999999999"), None);
    assert_eq!(parse_weight("18446744073709551616"), None);
}

#[test]
fn weights_are_read_from_characters_as_from_text() {
    assert_eq!(parse_weight_chars(&chars("35")), Some(35_000_000));
    assert_eq!(parse_weight_chars(&chars("3x")), None);
}

#[test]
fn digits_are_told_from_other_characters() {
    assert!(is_all_digits(&chars("0123456789")));
    assert!(is_all_digits(&chars("")));
    assert!(!is_all_digits(&chars("12a")));
    assert!(!is_all_digits(&chars("/")));
    assert!(!is_all_digits(&chars(":")));
}

#[test]
fn digits_are_read_up_to_64_bits() {
    assert_eq!(read_digits(&chars("")), Some(0));
    assert_eq!(read_digits(&chars("42")), Some(42));
    assert_eq!(read_digits(&chars("18446744073709551615")), Some(u64::MAX));
    assert_eq!(read_digits(&chars("18446744073709551616")), None);
    assert_eq!(read_digits(&chars("000000000000000000000000001")), Some(1));
    assert_eq!(read_digits(&chars("4x")), None);
    assert_eq!(read_digits(&chars("-4")), None);
}

#[test]
fn characters_of_a_text() {
    assert_eq!(chars_of("a#1"), vec!['a', '#', '1']);
    assert_eq!(chars_of(""), Vec::<char>::new());
    assert_eq!(chars_of("é#ß"), vec!['é', '#', 'ß']);
}

#[test]
fn a_pattern_is_found_first_and_last() {
    let text = chars("a#b#c");
    let symbol = chars("#");
    assert_eq!(find_first(&text, &symbol), Some(1));
    assert_eq!(find_last(&text, &symbol), Some(3));
    assert_eq!(find_first(&text, &chars("%")), None);
    assert_eq!(find_last(&text, &chars("%")), None);
    assert_eq!(find_first(&text, &chars("a#b#c#")), None);
    assert_eq!(find_first(&text, &chars("b#c")), Some(2));
    assert_eq!(find_last(&text, &chars("a#")), Some(0));
}

#[test]
fn the_empty_pattern_stands_everywhere() {
    let text = chars("abc");
    let nothing = chars("");
    assert_eq!(find_first(&text, &nothing), Some(0));
    assert_eq!(find_last(&text, &nothing), Some(3));
    assert_eq!(find_first(&nothing, &nothing), Some(0));
}

#[test]
fn a_pattern_of_several_characters_is_matched_whole() {
    let text = chars("ab--cd--ef");
    let symbol = chars("--");
    assert!(matches_at(&text, &symbol, 2));
    assert!(!matches_at(&text, &symbol, 3));
    assert!(!matches_at(&text, &symbol, 9));
    assert!(!matches_at(&text, &symbol, 100));
    assert_eq!(find_first(&text, &symbol), Some(2));
    assert_eq!(find_last(&text, &symbol), Some(6));
}
