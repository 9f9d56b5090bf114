//! Piecewise checks of extraction, parsing, rendering and padding.

use readtimestamp::extract::{extract, ExtractError};
use readtimestamp::present::{check_width, pad_to_left};
use readtimestamp::run::get_attempting_to_parse_string;
use readtimestamp::text::render_u128;
use readtimestamp::value::parse_candidate;

#[test]
fn test_check_width() {
    assert!(check_width());
}

#[test]
fn digit_input_is_its_own_candidate() {
    let e = extract("1700000000").expect("extraction");
    assert_eq!(e.candidate, "1700000000");
    assert_eq!(e.start, 0);
    assert_eq!(e.len, 10);
    assert!(!e.scanned);
}

#[test]
fn twenty_one_digits_still_accepted() {
    let e = extract("999999999999999999999").expect("extraction");
    assert_eq!(e.candidate.len(), 21);
    assert!(!e.scanned);
}

#[test]
fn twenty_two_digits_rejected() {
    assert_eq!(
        extract("9999999999999999999999").unwrap_err(),
        ExtractError::InputTooLong
    );
}

#[test]
fn longest_eligible_run_wins() {
    let e = extract("abc12xyz4567def").expect("extraction");
    assert_eq!(e.candidate, "4567");
    assert_eq!(e.start, 8);
    assert!(e.scanned);
    assert_eq!(e.eligible_count, 2);
}

#[test]
fn overlong_run_is_ineligible_but_shorter_one_wins() {
    let e = extract("a9999999999999999999999999b12c").expect("extraction");
    assert_eq!(e.candidate, "12");
    assert_eq!(e.eligible_count, 1);
}

#[test]
fn only_overlong_runs_mean_no_candidate() {
    assert_eq!(
        extract("a9999999999999999999999999b").unwrap_err(),
        ExtractError::NoCandidateFound
    );
}

#[test]
fn parse_reads_base_ten() {
    assert_eq!(parse_candidate("120"), Some(120));
    assert_eq!(parse_candidate("0"), Some(0));
    assert_eq!(
        parse_candidate("999999999999999999999"),
        Some(999_999_999_999_999_999_999)
    );
    assert_eq!(parse_candidate(""), None);
}

#[test]
fn rendering_is_decimal() {
    assert_eq!(render_u128(0), "0");
    assert_eq!(render_u128(120), "120");
    assert_eq!(
        render_u128(253_402_300_799_999_999_999),
        "253402300799999999999"
    );
}

#[test]
fn padding_fills_from_the_left() {
    assert_eq!(pad_to_left(12, "seconds"), "     seconds");
    assert_eq!(pad_to_left(12, "milliseconds"), "milliseconds");
    assert_eq!(pad_to_left(3, ""), "   ");
}

#[test]
fn header_counts_its_plain_length() {
    let (header, len) = get_attempting_to_parse_string("x");
    assert_eq!(header, "Attempting to parse \"x\"");
    assert_eq!(len, header.len());
}
