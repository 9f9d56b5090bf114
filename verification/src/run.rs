//! One whole run: extraction, parsing, interpretation, ranking and the
//! report, as pure computation on an injected "now" and local offset.

use vstd::prelude::*;
use vstd::string::*;
use vstd::arithmetic::div_mod::lemma_fundamental_div_mod;

use crate::extract::{
    chosen_run, eligible_count_upto, extract, no_eligible_run, run_len, ExtractError,
    MAXIMUM_NUMBER_OF_DIGITS,
};
use crate::interpret::{
    hypothesis_instant, hypothesis_overflows, hypothesis_resolves, interpret,
    interpretations_obey, unit_at, Outcome, Unit,
};
use crate::present::{
    best_marker_chars, build_report_lines, calendar_chars, describe_chars, fail_views, line_chars,
    overflow_chars, report_chars, shift_in_range, FailedEntry, MAX_DELTA_NANOS,
};
use crate::rank::{
    abs_key, delta_abs, lemma_sorted_membership, lemma_sorted_membership_rev,
    lemma_stable_sorted_first, lemma_stable_sorted_len, sort_entries, stable_sorted, ResolvedEntry,
};
use crate::text::{all_digits, dec_chars, digits_value, render_u128};
use crate::timeapi::{
    in_nanos_range, in_seconds_range, local_offset_seconds, now_unix_nanos, plausible_offset,
    range_error_chars, MAX_TIMESTAMP_NANOS, MIN_TIMESTAMP_NANOS,
};
use crate::value::{parse_candidate, within_maximum, MAXIMUM_NUMBER};

verus! {

/// Everything one run says: the echoed header and the length its underline
/// must have, the advisory lines, the rejection line if the input was
/// rejected, and the report body's lines.
pub struct RunOutput {
    pub header: String,
    pub underline_len: usize,
    pub notes: Vec<String>,
    pub error: Option<String>,
    pub report: Vec<String>,
}

/// The echoed header around the raw input.
pub open spec fn header_chars(s: Seq<char>) -> Seq<char> {
    "Attempting to parse \""@ + s + "\""@
}

pub open spec fn note_non_numeric_chars() -> Seq<char> {
    "NOTE: <TIMESTAMP> contains non-digit characters, attempting to find something that looks like a timestamp"@
}

pub open spec fn note_multiple_chars(count: nat) -> Seq<char> {
    "NOTE: "@ + dec_chars(count)
        + " possible timestamps were found in <TIMESTAMP>. Parsing the longest one that is not too long to be parsed (if two possible timestamps of the same length were found, the first one will be parsed)."@
}

pub open spec fn note_parsing_chars(candidate: Seq<char>) -> Seq<char> {
    "Parsing possible timestamp found in <TIMESTAMP>: \""@ + candidate + "\""@
}

pub open spec fn note_timezone_chars(err: Seq<char>) -> Seq<char> {
    "NOTE: Could not determine current time zone offset. Dates will only be displayed in UTC. Error reported: \""@
        + err + "\"."@
}

pub open spec fn err_too_long_chars() -> Seq<char> {
    "ERROR: <TIMESTAMP> is too long (more than 21 digits)"@
}

pub open spec fn err_no_candidate_chars() -> Seq<char> {
    "ERROR: <TIMESTAMP> does not contain any possible timestamps (groups of numbers of the appropriate length)"@
}

pub open spec fn err_too_large_chars(v: nat) -> Seq<char> {
    "ERROR: Timestamp candidate "@ + dec_chars(v)
        + " is too large (greater than 253402300799999999999)"@
}

pub open spec fn err_unparseable_chars() -> Seq<char> {
    "ERROR: Could not parse possible timestamp into a 128 bit signed integer. The number is probably too long. Error reported: \"cannot parse integer from empty string\"."@
}

/// Where the chosen run starts, where one exists.
pub open spec fn spec_candidate_start(s: Seq<char>) -> int {
    choose|b: int| chosen_run(s, b)
}

/// The candidate digit string of `s`: the whole input on the fast path, the
/// chosen run otherwise.
pub open spec fn spec_candidate(s: Seq<char>) -> Seq<char> {
    if all_digits(s) {
        s
    } else {
        s.subrange(
            spec_candidate_start(s),
            spec_candidate_start(s) + run_len(s, spec_candidate_start(s)),
        )
    }
}

/// A run of `s` yields a candidate to parse.
pub open spec fn has_candidate(s: Seq<char>) -> bool {
    (all_digits(s) && 0 < s.len() <= MAXIMUM_NUMBER_OF_DIGITS) || (!all_digits(s)
        && !no_eligible_run(s))
}

/// The value the candidate denotes.
pub open spec fn candidate_value(s: Seq<char>) -> int {
    digits_value(spec_candidate(s))
}

/// The advisory lines a successful extraction leaves.
pub open spec fn extraction_notes_chars(s: Seq<char>) -> Seq<Seq<char>> {
    if all_digits(s) {
        Seq::empty()
    } else {
        seq![note_non_numeric_chars()] + (if eligible_count_upto(s, s.len() as int) > 1 {
            seq![note_multiple_chars(eligible_count_upto(s, s.len() as int))]
        } else {
            Seq::empty()
        }) + seq![note_parsing_chars(spec_candidate(s))]
    }
}

/// The offset handed to presentation: none when the lookup failed.
pub open spec fn offset_option(offset: Result<i32, String>) -> Option<i32> {
    match offset {
        Ok(o) => Some(o),
        Err(_) => None,
    }
}

/// The advisory owed when the offset lookup failed.
pub open spec fn tz_notes_chars(offset: Result<i32, String>) -> Seq<Seq<char>> {
    match offset {
        Ok(_) => Seq::empty(),
        Err(e) => seq![note_timezone_chars(e@)],
    }
}

/// The entry a resolving hypothesis contributes.
pub open spec fn entry_of(u: Unit, value: int, now: int) -> ResolvedEntry {
    ResolvedEntry {
        unit: u,
        instant_nanos: hypothesis_instant(u, value) as i128,
        delta_nanos: (hypothesis_instant(u, value) - now) as i128,
    }
}

/// The singleton of `u`'s entry if it resolves, else nothing.
pub open spec fn maybe_entry(u: Unit, value: int, now: int) -> Seq<ResolvedEntry> {
    if hypothesis_resolves(u, value) {
        seq![entry_of(u, value, now)]
    } else {
        Seq::empty()
    }
}

/// The resolved entries of the first `k` hypotheses, in the fixed order.
pub open spec fn resolved_entries_upto(value: int, now: int, k: int) -> Seq<ResolvedEntry>
    decreases k,
{
    if k <= 0 {
        Seq::empty()
    } else {
        resolved_entries_upto(value, now, k - 1) + maybe_entry(unit_at(k - 1), value, now)
    }
}

/// The resolved entries of all four hypotheses.
pub open spec fn resolved_entries(value: int, now: int) -> Seq<ResolvedEntry> {
    resolved_entries_upto(value, now, 4)
}

/// The singleton of `u`'s failure, if it fails.
pub open spec fn maybe_failed(u: Unit, value: int) -> Seq<(Unit, Seq<char>)> {
    if hypothesis_overflows(u, value) {
        seq![(u, overflow_chars(u))]
    } else if !hypothesis_resolves(u, value) {
        seq![(u, calendar_chars(range_error_chars()))]
    } else {
        Seq::empty()
    }
}

/// The failures of the first `k` hypotheses, in the fixed order.
pub open spec fn failed_list_upto(value: int, k: int) -> Seq<(Unit, Seq<char>)>
    decreases k,
{
    if k <= 0 {
        Seq::empty()
    } else {
        failed_list_upto(value, k - 1) + maybe_failed(unit_at(k - 1), value)
    }
}

/// The failures of all four hypotheses.
pub open spec fn failed_list(value: int) -> Seq<(Unit, Seq<char>)> {
    failed_list_upto(value, 4)
}

/// The whole report body of a run with candidate `value`, reference instant
/// `now`, and the given local offset.
pub open spec fn full_report_chars(value: int, now: int, offset: Option<i32>) -> Seq<Seq<char>> {
    report_chars(stable_sorted(resolved_entries(value, now)), failed_list(value), offset)
}

/// The texts of `v` are exactly `expected`.
pub open spec fn texts_match(v: Seq<String>, expected: Seq<Seq<char>>) -> bool {
    v.len() == expected.len() && forall|k: int| 0 <= k < v.len() ==> (#[trigger] v[k])@
        == expected[k]
}

/// A rejected run: the advisories, the rejection line, and no report.
pub open spec fn expected_rejection(out: RunOutput, notes: Seq<Seq<char>>, err: Seq<char>) -> bool {
    &&& texts_match(out.notes@, notes)
    &&& out.error matches Some(m) && m@ == err
    &&& out.report@.len() == 0
}

/// A completed run: the advisories, no rejection, and the report body.
pub open spec fn expected_success(
    out: RunOutput,
    notes: Seq<Seq<char>>,
    report: Seq<Seq<char>>,
) -> bool {
    &&& texts_match(out.notes@, notes)
    &&& out.error is None
    &&& texts_match(out.report@, report)
}

/// What every non-fatal run output must be, for input text `s` of `bl`
/// bytes, reference instant `now` and offset lookup result `offset`.
pub open spec fn run_output_obeys(
    out: RunOutput,
    s: Seq<char>,
    bl: int,
    now: int,
    offset: Result<i32, String>,
) -> bool {
    &&& out.header@ == header_chars(s)
    &&& out.underline_len == bl + 22
    &&& (all_digits(s) && s.len() > MAXIMUM_NUMBER_OF_DIGITS ==> expected_rejection(
        out,
        Seq::empty(),
        err_too_long_chars(),
    ))
    &&& (all_digits(s) && s.len() == 0 ==> expected_rejection(
        out,
        Seq::empty(),
        err_unparseable_chars(),
    ))
    &&& (!all_digits(s) && no_eligible_run(s) ==> expected_rejection(
        out,
        seq![note_non_numeric_chars()],
        err_no_candidate_chars(),
    ))
    &&& (has_candidate(s) && candidate_value(s) > MAXIMUM_NUMBER ==> expected_rejection(
        out,
        extraction_notes_chars(s),
        err_too_large_chars(candidate_value(s) as nat),
    ))
    &&& (has_candidate(s) && candidate_value(s) <= MAXIMUM_NUMBER ==> expected_success(
        out,
        extraction_notes_chars(s) + tz_notes_chars(offset),
        full_report_chars(candidate_value(s), now, offset_option(offset)),
    ))
}

/// The one condition under which a run ends with the fatal class: a candidate
/// was read and some resolving hypothesis has an instant whose shift to the
/// determined local offset leaves the supported calendar.
pub open spec fn run_fatal_condition(s: Seq<char>, now: int, o: i32) -> bool {
    &&& has_candidate(s)
    &&& candidate_value(s) <= MAXIMUM_NUMBER
    &&& exists|k: int|
        0 <= k < resolved_entries(candidate_value(s), now).len() && !shift_in_range(
            (#[trigger] resolved_entries(candidate_value(s), now)[k]).instant_nanos as int,
            o,
        )
}

/// Whether a run of `s` against `now` and this offset lookup result ends
/// with the fatal class: never, unless the offset was determined and the
/// fatal condition holds.
pub open spec fn run_fails(s: Seq<char>, now: int, offset: Result<i32, String>) -> bool {
    match offset {
        Ok(o) => run_fatal_condition(s, now, o),
        Err(_) => false,
    }
}

/// At most one run of `s` is chosen.
pub proof fn lemma_chosen_unique(s: Seq<char>, b1: int, b2: int)
    requires
        chosen_run(s, b1),
        chosen_run(s, b2),
    ensures
        b1 == b2,
{
    assert(run_len(s, b1) <= run_len(s, b2));
    assert(run_len(s, b2) <= run_len(s, b1));
}

/// The header echoed around the raw input, and the length of its styled
/// form's plain text, which the underline must match.
pub fn get_attempting_to_parse_string(timestamp: &str) -> (r: (String, usize))
    requires
        timestamp.spec_bytes().len() + 22 <= usize::MAX,
    ensures
        r.0@ == header_chars(timestamp@),
        r.1 == timestamp.spec_bytes().len() + 22,
{
    let mut header = String::from_str("Attempting to parse \"");
    header.append(timestamp);
    header.append("\"");
    proof {
        assert(header@ =~= header_chars(timestamp@));
    }
    let len = timestamp.len() + 22;
    (header, len)
}

fn note_non_numeric() -> (r: String)
    ensures
        r@ == note_non_numeric_chars(),
{
    String::from_str(
        "NOTE: <TIMESTAMP> contains non-digit characters, attempting to find something that looks like a timestamp",
    )
}

fn note_multiple(count: usize) -> (r: String)
    ensures
        r@ == note_multiple_chars(count as nat),
{
    let mut text = String::from_str("NOTE: ");
    let rendered = render_u128(count as u128);
    text.append(rendered.as_str());
    text.append(
        " possible timestamps were found in <TIMESTAMP>. Parsing the longest one that is not too long to be parsed (if two possible timestamps of the same length were found, the first one will be parsed).",
    );
    proof {
        assert(text@ =~= note_multiple_chars(count as nat));
    }
    text
}

fn note_parsing(candidate: &str) -> (r: String)
    ensures
        r@ == note_parsing_chars(candidate@),
{
    let mut text = String::from_str("Parsing possible timestamp found in <TIMESTAMP>: \"");
    text.append(candidate);
    text.append("\"");
    proof {
        assert(text@ =~= note_parsing_chars(candidate@));
    }
    text
}

fn note_timezone(err: &str) -> (r: String)
    ensures
        r@ == note_timezone_chars(err@),
{
    let mut text = String::from_str(
        "NOTE: Could not determine current time zone offset. Dates will only be displayed in UTC. Error reported: \"",
    );
    text.append(err);
    text.append("\".");
    proof {
        assert(text@ =~= note_timezone_chars(err@));
    }
    text
}

fn err_too_long() -> (r: String)
    ensures
        r@ == err_too_long_chars(),
{
    String::from_str("ERROR: <TIMESTAMP> is too long (more than 21 digits)")
}

fn err_no_candidate() -> (r: String)
    ensures
        r@ == err_no_candidate_chars(),
{
    String::from_str(
        "ERROR: <TIMESTAMP> does not contain any possible timestamps (groups of numbers of the appropriate length)",
    )
}

fn err_too_large(v: u128) -> (r: String)
    ensures
        r@ == err_too_large_chars(v as nat),
{
    let mut text = String::from_str("ERROR: Timestamp candidate ");
    let rendered = render_u128(v);
    text.append(rendered.as_str());
    text.append(" is too large (greater than 253402300799999999999)");
    proof {
        assert(text@ =~= err_too_large_chars(v as nat));
    }
    text
}

fn err_unparseable() -> (r: String)
    ensures
        r@ == err_unparseable_chars(),
{
    String::from_str(
        "ERROR: Could not parse possible timestamp into a 128 bit signed integer. The number is probably too long. Error reported: \"cannot parse integer from empty string\".",
    )
}

/// Every resolved entry's instant lies in the calendar and its distance from
/// an in-range "now" within the widest possible.
proof fn lemma_resolved_entries_bounds(value: int, now: int, k: int)
    requires
        within_maximum(value),
        in_nanos_range(now),
        0 <= k <= 4,
    ensures
        forall|m: int|
            0 <= m < resolved_entries_upto(value, now, k).len() ==> {
                let e = #[trigger] resolved_entries_upto(value, now, k)[m];
                &&& in_nanos_range(e.instant_nanos as int)
                &&& delta_abs(e.delta_nanos as int) <= MAX_DELTA_NANOS
                &&& e.delta_nanos > i128::MIN
            },
    decreases k,
{
    if k > 0 {
        lemma_resolved_entries_bounds(value, now, k - 1);
        let u = unit_at(k - 1);
        if hypothesis_resolves(u, value) {
            assert(in_nanos_range(hypothesis_instant(u, value))) by {
                if u == Unit::Seconds {
                    assert(in_seconds_range(value));
                    assert(hypothesis_instant(u, value) == value * 1_000_000_000);
                }
            }
        }
    }
}

/// One whole run on the raw input, against an injected reference instant and
/// local offset lookup result.
///
/// Everything the run says is pinned by `run_output_obeys`. The run ends
/// normally on every rejected input and on every run without a determined
/// offset; it ends with the fatal class exactly under `run_fails`, the one
/// case in which the original aborted.
pub fn run(timestamp: &str, now_nanos: i128, offset: Result<i32, String>) -> (r: Result<
    RunOutput,
    String,
>)
    requires
        in_nanos_range(now_nanos as int),
        offset matches Ok(o) ==> plausible_offset(o as int),
        timestamp.spec_bytes().len() + 22 <= usize::MAX,
    ensures
        r matches Ok(out) ==> run_output_obeys(
            out,
            timestamp@,
            timestamp.spec_bytes().len() as int,
            now_nanos as int,
            offset,
        ),
        (r is Err) == run_fails(timestamp@, now_nanos as int, offset),
        r matches Err(m) ==> m@ == crate::timeapi::local_range_error_chars(),
{
    let ghost s = timestamp@;
    let (header, underline_len) = get_attempting_to_parse_string(timestamp);
    let mut notes: Vec<String> = Vec::new();

    let extraction = match extract(timestamp) {
        Ok(e) => e,
        Err(ExtractError::InputTooLong) => {
            assert(!has_candidate(s));
            return Ok(RunOutput {
                header,
                underline_len,
                notes,
                error: Some(err_too_long()),
                report: Vec::new(),
            });
        },
        Err(ExtractError::NoCandidateFound) => {
            assert(!has_candidate(s));
            notes.push(note_non_numeric());
            return Ok(RunOutput {
                header,
                underline_len,
                notes,
                error: Some(err_no_candidate()),
                report: Vec::new(),
            });
        },
    };

    proof {
        if !all_digits(s) {
            lemma_chosen_unique(s, spec_candidate_start(s), extraction.start as int);
            assert(extraction.candidate@ == spec_candidate(s));
        } else {
            assert(extraction.candidate@ == spec_candidate(s));
        }
    }

    if extraction.scanned {
        notes.push(note_non_numeric());
        if extraction.eligible_count > 1 {
            notes.push(note_multiple(extraction.eligible_count));
        }
        notes.push(note_parsing(extraction.candidate.as_str()));
        proof {
            assert(notes@.len() == extraction_notes_chars(s).len());
            assert(texts_match(notes@, extraction_notes_chars(s)));
        }
    }

    let value = match parse_candidate(extraction.candidate.as_str()) {
        Some(v) => v,
        None => {
            proof {
                // A scanned candidate is a digit run of length at least one,
                // so only the empty fast-path input reaches this arm.
                if !all_digits(s) {
                    assert(run_len(s, extraction.start as int) >= 1);
                    assert(false);
                }
                assert(s.len() == 0);
                assert(!has_candidate(s));
            }
            return Ok(RunOutput {
                header,
                underline_len,
                notes,
                error: Some(err_unparseable()),
                report: Vec::new(),
            });
        },
    };
    assert(value == candidate_value(s));
    proof {
        if !all_digits(s) {
            assert(crate::extract::eligible_at(s, extraction.start as int));
            assert(!no_eligible_run(s));
        }
        assert(has_candidate(s));
    }

    if value > MAXIMUM_NUMBER {
        assert(!run_fails(s, now_nanos as int, offset));
        return Ok(RunOutput {
            header,
            underline_len,
            notes,
            error: Some(err_too_large(value as u128)),
            report: Vec::new(),
        });
    }

    let interps = interpret(value, now_nanos);
    let ghost iv = interps@;

    let offset_opt: Option<i32> = match &offset {
        Ok(o) => Some(*o),
        Err(e) => {
            notes.push(note_timezone(e.as_str()));
            None
        },
    };
    proof {
        assert(offset_opt == offset_option(offset));
        assert(texts_match(notes@, extraction_notes_chars(s) + tz_notes_chars(offset)));
    }

    let mut v = interps;
    let mut res: Vec<ResolvedEntry> = Vec::new();
    let mut fail: Vec<FailedEntry> = Vec::new();
    let mut idx: usize = 0;
    while idx < 4
        invariant
            iv.len() == 4,
            interpretations_obey(iv, value as int, now_nanos as int),
            0 <= idx <= 4,
            v@ == iv.skip(idx as int),
            res@ == resolved_entries_upto(value as int, now_nanos as int, idx as int),
            fail_views(fail@) == failed_list_upto(value as int, idx as int),
        decreases 4 - idx,
    {
        let it = v.remove(0);
        proof {
            assert(it == iv[idx as int]);
            assert(v@ =~= iv.skip(idx + 1));
        }
        let ghost u = unit_at(idx as int);
        let unit = it.unit;
        match it.outcome {
            Outcome::Resolved { instant_nanos, delta_nanos } => {
                res.push(ResolvedEntry { unit, instant_nanos, delta_nanos });
                proof {
                    assert(hypothesis_resolves(u, value as int));
                    assert(res@ =~= resolved_entries_upto(
                        value as int,
                        now_nanos as int,
                        idx + 1,
                    ));
                    assert(fail_views(fail@) =~= failed_list_upto(value as int, idx + 1));
                }
            },
            Outcome::UnitOverflow => {
                let description = crate::present::describe_overflow(unit);
                fail.push(FailedEntry { unit, description });
                proof {
                    assert(hypothesis_overflows(u, value as int));
                    assert(res@ =~= resolved_entries_upto(
                        value as int,
                        now_nanos as int,
                        idx + 1,
                    ));
                    assert(fail_views(fail@) =~= failed_list_upto(value as int, idx + 1));
                }
            },
            Outcome::CalendarRange { message } => {
                let description = crate::present::describe_calendar(message);
                fail.push(FailedEntry { unit, description });
                proof {
                    assert(!hypothesis_overflows(u, value as int));
                    assert(!hypothesis_resolves(u, value as int));
                    assert(res@ =~= resolved_entries_upto(
                        value as int,
                        now_nanos as int,
                        idx + 1,
                    ));
                    assert(fail_views(fail@) =~= failed_list_upto(value as int, idx + 1));
                }
            },
        }
        idx = idx + 1;
    }
    proof {
        assert(res@ == resolved_entries(value as int, now_nanos as int));
        assert(fail_views(fail@) == failed_list(value as int));
        lemma_resolved_entries_bounds(value as int, now_nanos as int, 4);
    }

    let sorted = sort_entries(res);
    proof {
        lemma_sorted_membership(resolved_entries(value as int, now_nanos as int));
        assert(forall|k: int|
            0 <= k < sorted@.len() ==> {
                let e = #[trigger] sorted@[k];
                in_nanos_range(e.instant_nanos as int) && delta_abs(e.delta_nanos as int)
                    <= MAX_DELTA_NANOS
            });
    }

    let ghost entries = resolved_entries(value as int, now_nanos as int);
    let report = match build_report_lines(&sorted, &fail, offset_opt) {
        Ok(lines) => lines,
        Err(e) => {
            proof {
                // Only a determined offset can fail the build, on some ranked
                // entry whose local shift leaves the calendar; that entry is
                // one of the resolved ones.
                assert(offset is Ok);
                let o = offset->Ok_0;
                assert(exists|k: int|
                    0 <= k < sorted@.len() && !shift_in_range(
                        (#[trigger] sorted@[k]).instant_nanos as int,
                        o,
                    ));
                let k = choose|k: int|
                    0 <= k < sorted@.len() && !shift_in_range(
                        (#[trigger] sorted@[k]).instant_nanos as int,
                        o,
                    );
                let j = choose|j: int| 0 <= j < entries.len() && sorted@[k] == entries[j];
                assert(!shift_in_range(entries[j].instant_nanos as int, o));
                assert(run_fails(s, now_nanos as int, offset));
            }
            return Err(e);
        },
    };
    proof {
        if offset is Ok {
            let o = offset->Ok_0;
            lemma_sorted_membership_rev(entries);
            assert forall|j: int| 0 <= j < entries.len() implies shift_in_range(
                (#[trigger] entries[j]).instant_nanos as int,
                o,
            ) by {
                let k = choose|k: int| 0 <= k < sorted@.len() && sorted@[k] == entries[j];
                assert(shift_in_range(sorted@[k].instant_nanos as int, o));
            }
        }
        assert(!run_fails(s, now_nanos as int, offset));
    }

    Ok(RunOutput { header, underline_len, notes, error: None, report })
}

/// One whole run against the system clock and the machine's local offset.
///
/// The run ends normally but for the one fatal condition: a determined
/// offset under which some resolved instant's local shift leaves the
/// calendar.
pub fn run_now(timestamp: &str) -> (r: Result<RunOutput, String>)
    requires
        timestamp.spec_bytes().len() + 22 <= usize::MAX,
    ensures
        r matches Ok(out) ==> exists|now: i128, offset: Result<i32, String>|
            in_nanos_range(now as int) && #[trigger] run_output_obeys(
                out,
                timestamp@,
                timestamp.spec_bytes().len() as int,
                now as int,
                offset,
            ),
        r is Err ==> exists|now: i128, o: i32|
            in_nanos_range(now as int) && plausible_offset(o as int)
                && #[trigger] run_fatal_condition(timestamp@, now as int, o),
        r matches Err(m) ==> m@ == crate::timeapi::local_range_error_chars(),
{
    let now_nanos = now_unix_nanos();
    let offset = local_offset_seconds();
    let ghost now_w = now_nanos;
    let ghost offset_w = offset;
    let r = run(timestamp, now_nanos, offset);
    proof {
        if r is Ok {
            assert(run_output_obeys(
                r->Ok_0,
                timestamp@,
                timestamp.spec_bytes().len() as int,
                now_w as int,
                offset_w,
            ));
        } else {
            assert(run_fails(timestamp@, now_w as int, offset_w));
            assert(offset_w is Ok);
            assert(run_fatal_condition(timestamp@, now_w as int, offset_w->Ok_0));
        }
    }
    r
}

/// The views of two run outputs agree everywhere.
pub open spec fn outputs_agree(out1: RunOutput, out2: RunOutput) -> bool {
    &&& out1.header@ == out2.header@
    &&& out1.underline_len == out2.underline_len
    &&& texts_match(out1.notes@, Seq::new(out2.notes@.len(), |k: int| out2.notes@[k]@))
    &&& (out1.error is Some <==> out2.error is Some)
    &&& (out1.error matches Some(m1) ==> out2.error matches Some(m2) && m1@ == m2@)
    &&& texts_match(out1.report@, Seq::new(out2.report@.len(), |k: int| out2.report@[k]@))
}

/// IDEMPOTENCE LAW: two runs of the same input against the same reference
/// instant and the same offset lookup result say exactly the same.
pub proof fn lemma_run_deterministic(
    out1: RunOutput,
    out2: RunOutput,
    s: Seq<char>,
    bl: int,
    now: int,
    offset: Result<i32, String>,
)
    requires
        run_output_obeys(out1, s, bl, now, offset),
        run_output_obeys(out2, s, bl, now, offset),
    ensures
        outputs_agree(out1, out2),
{
    if all_digits(s) {
        if s.len() > MAXIMUM_NUMBER_OF_DIGITS {
        } else if s.len() == 0 {
        } else {
            assert(has_candidate(s));
        }
    } else {
        if no_eligible_run(s) {
        } else {
            assert(has_candidate(s));
        }
    }
}

/// ROUND-TRIP LAW: a "now" of whole seconds, read back as its own second
/// count, resolves under the seconds hypothesis to exactly that instant,
/// with no distance from "now".
pub proof fn lemma_seconds_round_trip(now: i128)
    requires
        in_nanos_range(now as int),
        (now as int) % 1_000_000_000 == 0,
    ensures
        hypothesis_resolves(Unit::Seconds, (now as int) / 1_000_000_000),
        entry_of(Unit::Seconds, (now as int) / 1_000_000_000, now as int).instant_nanos == now,
        entry_of(Unit::Seconds, (now as int) / 1_000_000_000, now as int).delta_nanos == 0,
{
    let v = (now as int) / 1_000_000_000;
    lemma_fundamental_div_mod(now as int, 1_000_000_000);
    assert(now == 1_000_000_000 * v);
    assert(MIN_TIMESTAMP_NANOS == (-377_705_116_800) * 1_000_000_000);
    assert(MAX_TIMESTAMP_NANOS == 253_402_300_799 * 1_000_000_000 + 999_999_999);
    assert(in_seconds_range(v)) by {
        assert(1_000_000_000 * v >= MIN_TIMESTAMP_NANOS);
        assert(1_000_000_000 * v <= MAX_TIMESTAMP_NANOS);
        if v < -377_705_116_800 {
            assert(1_000_000_000 * v <= 1_000_000_000 * (-377_705_116_801)) by (nonlinear_arith)
                requires v <= -377_705_116_801;
            assert(false);
        }
        if v > 253_402_300_799 {
            assert(1_000_000_000 * v >= 1_000_000_000 * 253_402_300_800) by (nonlinear_arith)
                requires v >= 253_402_300_800;
            assert(false);
        }
    }
    assert(hypothesis_instant(Unit::Seconds, v) == v * 1_000_000_000);
    assert(v * 1_000_000_000 == now);
}

/// TIMEZONE LAW: when the offset lookup failed, exactly one timezone
/// advisory follows the extraction advisories, and the report is the one
/// built without any local rendering.
pub proof fn lemma_timezone_unavailable(
    out: RunOutput,
    s: Seq<char>,
    bl: int,
    now: int,
    offset: Result<i32, String>,
)
    requires
        run_output_obeys(out, s, bl, now, offset),
        offset is Err,
        has_candidate(s),
        candidate_value(s) <= MAXIMUM_NUMBER,
    ensures
        texts_match(
            out.notes@,
            extraction_notes_chars(s) + seq![note_timezone_chars(offset->Err_0@)],
        ),
        texts_match(out.report@, full_report_chars(candidate_value(s), now, None)),
{
}

/// BEST-CANDIDATE LAW: when any hypothesis resolves, the report opens with
/// the emphasis marker and then the line of a resolving hypothesis whose
/// instant no other beats for closeness to "now", and which no earlier
/// hypothesis of the fixed order ties.
pub proof fn lemma_best_candidate_is_nearest(value: int, now: int, offset: Option<i32>)
    requires
        resolved_entries(value, now).len() > 0,
    ensures
        full_report_chars(value, now, offset)[0] == best_marker_chars(),
        ({
            let entries = resolved_entries(value, now);
            let first = stable_sorted(entries)[0];
            &&& full_report_chars(value, now, offset)[1] == line_chars(
                first.unit,
                describe_chars(first.instant_nanos as int, first.delta_nanos as int, offset),
            )
            &&& exists|j: int|
                {
                    &&& 0 <= j < entries.len()
                    &&& first == #[trigger] entries[j]
                    &&& forall|k: int|
                        0 <= k < entries.len() ==> abs_key(entries[j]) <= abs_key(
                            #[trigger] entries[k],
                        )
                    &&& forall|k: int|
                        0 <= k < j ==> abs_key(entries[j]) < abs_key(#[trigger] entries[k])
                }
        }),
{
    let entries = resolved_entries(value, now);
    lemma_stable_sorted_len(entries);
    lemma_stable_sorted_first(entries);
    let ranked = stable_sorted(entries);
    let report = full_report_chars(value, now, offset);
    let rl = Seq::new(
        ranked.len(),
        |i: int|
            line_chars(
                ranked[i].unit,
                describe_chars(ranked[i].instant_nanos as int, ranked[i].delta_nanos as int, offset),
            ),
    );
    assert(report[0] == best_marker_chars());
    assert(report[1] == rl[0]);
}

/// OVERFLOW LAW: a value beyond the sixty-four-bit range but within the
/// maximum magnitude overflows the seconds, milliseconds and microseconds
/// hypotheses, while the nanoseconds hypothesis still resolves.
pub proof fn lemma_large_value_overflow(value: int)
    requires
        i64::MAX < value <= MAXIMUM_NUMBER,
    ensures
        hypothesis_overflows(Unit::Seconds, value),
        hypothesis_overflows(Unit::Milliseconds, value),
        hypothesis_overflows(Unit::Microseconds, value),
        hypothesis_resolves(Unit::Nanoseconds, value),
{
}

} // verus!
