//! End-to-end runs against injected reference instants and offsets.

use readtimestamp::run::{run, RunOutput};

/// 2023-11-14 22:13:20 UTC, in seconds.
const NOV_2023_SECONDS: i128 = 1_700_000_000;

/// A reference instant in late 2025, in nanoseconds.
const NOW_2025_NANOS: i128 = 1_760_000_000_000_000_000;

fn run_ok(input: &str, now_nanos: i128, offset: Result<i32, String>) -> RunOutput {
    match run(input, now_nanos, offset) {
        Ok(out) => out,
        Err(e) => panic!("unexpected fatal run error: {e}"),
    }
}

#[test]
fn seconds_hypothesis_wins_for_recent_timestamp() {
    let out = run_ok("1700000000", NOW_2025_NANOS, Err("injected".to_string()));
    assert!(out.error.is_none());
    assert_eq!(out.report[0], "Best candidate unit:");
    assert!(out.report[1].starts_with("(     seconds) "));
    assert!(out.report[1].contains("2023-11-14"));
    assert!(out.report[2].is_empty());
    // The nanoseconds reading of the same digits lands in 1970.
    let nanos_line = out
        .report
        .iter()
        .find(|l| l.starts_with("( nanoseconds) "))
        .expect("nanoseconds line");
    assert!(nanos_line.contains("1970-01-01"));
}

#[test]
fn header_and_underline() {
    let out = run_ok("x1y", NOW_2025_NANOS, Err("injected".to_string()));
    assert_eq!(out.header, "Attempting to parse \"x1y\"");
    assert_eq!(out.underline_len, "Attempting to parse \"x1y\"".len());
}

#[test]
fn fully_numeric_input_leaves_no_extraction_notes() {
    let out = run_ok("1700000000", NOW_2025_NANOS, Ok(0));
    assert!(out.notes.is_empty());
    assert!(out.error.is_none());
}

#[test]
fn too_long_numeric_input_is_rejected_without_report() {
    let out = run_ok(
        "99999999999999999999999",
        NOW_2025_NANOS,
        Ok(0),
    );
    assert_eq!(
        out.error.as_deref(),
        Some("ERROR: <TIMESTAMP> is too long (more than 21 digits)")
    );
    assert!(out.report.is_empty());
    assert!(out.notes.is_empty());
}

#[test]
fn no_candidate_in_non_numeric_input() {
    let out = run_ok("abcdef", NOW_2025_NANOS, Ok(0));
    assert_eq!(
        out.error.as_deref(),
        Some(
            "ERROR: <TIMESTAMP> does not contain any possible timestamps (groups of numbers of the appropriate length)"
        )
    );
    assert_eq!(out.notes.len(), 1);
    assert!(out.notes[0].starts_with("NOTE: <TIMESTAMP> contains non-digit characters"));
    assert!(out.report.is_empty());
}

#[test]
fn candidate_over_maximum_magnitude_is_rejected() {
    let out = run_ok("999999999999999999999", NOW_2025_NANOS, Ok(0));
    assert_eq!(
        out.error.as_deref(),
        Some(
            "ERROR: Timestamp candidate 999999999999999999999 is too large (greater than 253402300799999999999)"
        )
    );
    assert!(out.report.is_empty());
}

#[test]
fn empty_input_is_unparseable() {
    let out = run_ok("", NOW_2025_NANOS, Ok(0));
    assert_eq!(
        out.error.as_deref(),
        Some(
            "ERROR: Could not parse possible timestamp into a 128 bit signed integer. The number is probably too long. Error reported: \"cannot parse integer from empty string\"."
        )
    );
    assert!(out.notes.is_empty());
    assert!(out.report.is_empty());
}

#[test]
fn longest_run_is_parsed_with_advisories() {
    let out = run_ok("abc12xyz4567def", NOW_2025_NANOS, Ok(0));
    assert!(out.error.is_none());
    assert_eq!(out.notes.len(), 3);
    assert!(out.notes[0].starts_with("NOTE: <TIMESTAMP> contains non-digit characters"));
    assert!(out.notes[1].starts_with("NOTE: 2 possible timestamps were found in <TIMESTAMP>."));
    assert_eq!(
        out.notes[2],
        "Parsing possible timestamp found in <TIMESTAMP>: \"4567\""
    );
}

#[test]
fn equal_length_runs_take_the_leftmost() {
    let out = run_ok("ab12cd34", NOW_2025_NANOS, Ok(0));
    assert_eq!(
        out.notes[2],
        "Parsing possible timestamp found in <TIMESTAMP>: \"12\""
    );
}

#[test]
fn value_beyond_i64_overflows_all_but_nanoseconds() {
    let out = run_ok("10000000000000000000", NOW_2025_NANOS, Ok(0));
    assert!(out.error.is_none());
    let overflow_lines: Vec<&String> = out
        .report
        .iter()
        .filter(|l| l.contains("error: number was too large to interpret as"))
        .collect();
    assert_eq!(overflow_lines.len(), 3);
    assert!(out.report[0].starts_with("Best candidate unit:"));
    assert!(out.report[1].starts_with("( nanoseconds) "));
    assert!(out.report[1].contains("UTC: "));
}

#[test]
fn identical_runs_say_the_same() {
    let a = run_ok("abc12xyz4567def", NOW_2025_NANOS, Err("gone".to_string()));
    let b = run_ok("abc12xyz4567def", NOW_2025_NANOS, Err("gone".to_string()));
    assert_eq!(a.header, b.header);
    assert_eq!(a.underline_len, b.underline_len);
    assert_eq!(a.notes, b.notes);
    assert_eq!(a.error, b.error);
    assert_eq!(a.report, b.report);
}

#[test]
fn whole_second_now_round_trips_through_seconds() {
    let now_nanos = NOV_2023_SECONDS * 1_000_000_000;
    let out = run_ok("1700000000", now_nanos, Ok(0));
    assert_eq!(out.report[0], "Best candidate unit:");
    assert!(out.report[1].starts_with("(     seconds) "));
    assert!(out.report[1].contains("2023-11-14"));
    // A zero delta is phrased from the humanizer's floor.
    assert!(out.report[1].contains("(now ago)"));
}

#[test]
fn failed_offset_lookup_leaves_one_advisory_and_no_local_segment() {
    let out = run_ok("1700000000", NOW_2025_NANOS, Err("injected failure".to_string()));
    let tz_notes: Vec<&String> = out
        .notes
        .iter()
        .filter(|n| n.contains("Could not determine current time zone offset"))
        .collect();
    assert_eq!(tz_notes.len(), 1);
    assert!(tz_notes[0].contains("Error reported: \"injected failure\"."));
    for line in &out.report {
        assert!(!line.contains("local:"));
    }
}

#[test]
fn known_offset_adds_local_segment() {
    let out = run_ok("1700000000", NOW_2025_NANOS, Ok(3600));
    assert!(out.notes.is_empty());
    assert!(out.report[1].contains("UTC: 2023-11-14 @ 10:13:20 PM"));
    // 22:13:20 UTC shifted one hour forward is 23:13:20 the same day.
    assert!(out.report[1].contains(" local: 2023-11-14 @ 11:13:20 PM"));
}

#[test]
fn calendar_range_failure_reports_fixed_error_line() {
    // 1e12 seconds leaves the calendar; the same digits as milliseconds or
    // finer stay inside it.
    let out = run_ok("1000000000000", NOW_2025_NANOS, Ok(0));
    assert!(out.error.is_none());
    assert!(out
        .report
        .iter()
        .any(|l| l == "(     seconds) error reported: \"timestamp was not in range\""));
}

#[test]
fn shifting_an_edge_instant_out_of_the_calendar_is_fatal() {
    // The last supported whole second, pushed one hour past the calendar's
    // end by a positive offset.
    assert!(run("253402300799", NOW_2025_NANOS, Ok(3600)).is_err());
    // Shifted the other way it stays inside and the run completes.
    assert!(run("253402300799", NOW_2025_NANOS, Ok(-3600)).is_ok());
    // An undetermined offset can never end a run abnormally.
    assert!(run("253402300799", NOW_2025_NANOS, Err("gone".to_string())).is_ok());
}

#[test]
fn millisecond_count_ranks_milliseconds_first() {
    let out = run_ok("1700000000000", NOW_2025_NANOS, Ok(0));
    assert_eq!(out.report[0], "Best candidate unit:");
    assert!(out.report[1].starts_with("(milliseconds) "));
    assert!(out.report[1].contains("2023-11-14"));
}

#[test]
fn eligible_twenty_one_digit_run_beats_shorter_one() {
    let out = run_ok("a123b999999999999999999999999c253402300799999999999d", NOW_2025_NANOS, Ok(0));
    assert_eq!(
        out.notes[2],
        "Parsing possible timestamp found in <TIMESTAMP>: \"253402300799999999999\""
    );
    assert!(out.error.is_none());
}
