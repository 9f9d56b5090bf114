//! Presentation: descriptions of resolved and failed hypotheses, and the
//! report body that ranks them.

use vstd::prelude::*;
use vstd::string::*;

use crate::interpret::Unit;
use crate::rank::{delta_abs, ResolvedEntry};
use crate::timeapi::{
    format_local, format_utc, humanize_chars, humanize_duration, in_nanos_range,
    local_format_chars, plausible_offset, utc_format_chars, MAX_TIMESTAMP_NANOS,
    MIN_TIMESTAMP_NANOS,
};

verus! {

/// The width every unit name is padded to.
pub const WIDTH: usize = 12;

/// The widest distance from "now" an in-range instant can have.
pub const MAX_DELTA_NANOS: i128 = MAX_TIMESTAMP_NANOS - MIN_TIMESTAMP_NANOS;

/// A hypothesis that did not resolve, with the text telling why.
pub struct FailedEntry {
    pub unit: Unit,
    pub description: String,
}

/// The name of a unit.
pub open spec fn unit_label_chars(u: Unit) -> Seq<char> {
    match u {
        Unit::Seconds => "seconds"@,
        Unit::Milliseconds => "milliseconds"@,
        Unit::Microseconds => "microseconds"@,
        Unit::Nanoseconds => "nanoseconds"@,
    }
}

/// `n` spaces.
pub open spec fn spec_spaces(n: nat) -> Seq<char>
    decreases n,
{
    if n == 0 {
        Seq::empty()
    } else {
        spec_spaces((n - 1) as nat).push(' ')
    }
}

/// The unit's name padded on the left to the fixed width.
pub open spec fn padded_unit_chars(u: Unit) -> Seq<char> {
    spec_spaces((WIDTH - unit_label_chars(u).len()) as nat) + unit_label_chars(u)
}

/// The name of `u`.
pub fn unit_label(u: Unit) -> (r: &'static str)
    ensures
        r@ == unit_label_chars(u),
{
    match u {
        Unit::Seconds => "seconds",
        Unit::Milliseconds => "milliseconds",
        Unit::Microseconds => "microseconds",
        Unit::Nanoseconds => "nanoseconds",
    }
}

/// Pads `input` on the left with spaces to `width` characters.
pub fn pad_to_left(width: usize, input: &str) -> (r: String)
    requires
        input@.len() <= width,
    ensures
        r@ == spec_spaces((width - input@.len()) as nat) + input@,
        r@.len() == width,
{
    let len = input.unicode_len();
    let pad = width - len;
    let mut s = String::new();
    let mut k: usize = 0;
    while k < pad
        invariant
            0 <= k <= pad,
            s@ == spec_spaces(k as nat),
            s@.len() == k,
        decreases pad - k,
    {
        s.append(" ");
        proof {
            reveal_strlit(" ");
            assert(s@ =~= spec_spaces((k + 1) as nat));
        }
        k = k + 1;
    }
    s.append(input);
    proof {
        lemma_spaces_len((width - input@.len()) as nat);
    }
    s
}

proof fn lemma_spaces_len(n: nat)
    ensures
        spec_spaces(n).len() == n,
    decreases n,
{
    if n > 0 {
        lemma_spaces_len((n - 1) as nat);
    }
}

/// The fixed width is the longest unit name's length.
pub fn check_width() -> (r: bool)
    ensures
        r,
{
    proof {
        reveal_strlit("seconds");
        reveal_strlit("milliseconds");
        reveal_strlit("microseconds");
        reveal_strlit("nanoseconds");
    }
    let mut widest = "microseconds".unicode_len();
    let l = "milliseconds".unicode_len();
    if l > widest {
        widest = l;
    }
    let l = "nanoseconds".unicode_len();
    if l > widest {
        widest = l;
    }
    let l = "seconds".unicode_len();
    if l > widest {
        widest = l;
    }
    widest == WIDTH
}

/// The unit's name padded to the fixed width.
pub fn padded_unit(u: Unit) -> (r: String)
    ensures
        r@ == padded_unit_chars(u),
{
    proof {
        reveal_strlit("seconds");
        reveal_strlit("milliseconds");
        reveal_strlit("microseconds");
        reveal_strlit("nanoseconds");
    }
    pad_to_left(WIDTH, unit_label(u))
}

/// The worded duration of a signed distance's magnitude.
pub open spec fn human_of(delta: int) -> Seq<char> {
    humanize_chars(
        (delta_abs(delta) / 1_000_000_000) as u64,
        (delta_abs(delta) % 1_000_000_000) as u32,
    )
}

/// The relative phrase: `in <duration>` for a future instant, `<duration>
/// ago` otherwise.
pub open spec fn relative_chars(delta: int) -> Seq<char> {
    if delta > 0 {
        "in "@ + human_of(delta)
    } else {
        human_of(delta) + " ago"@
    }
}

/// The local segment of a description: present only under a known offset.
pub open spec fn local_part_chars(instant: int, offset: Option<i32>) -> Seq<char> {
    match offset {
        Some(o) => " local: "@ + local_format_chars(instant as i128, o),
        None => Seq::empty(),
    }
}

/// The description of a resolved hypothesis: the UTC rendering, the local
/// rendering when the offset is known, and the relative phrase.
pub open spec fn describe_chars(instant: int, delta: int, offset: Option<i32>) -> Seq<char> {
    "UTC: "@ + utc_format_chars(instant as i128) + local_part_chars(instant, offset) + " ("@
        + relative_chars(delta) + ")"@
}

/// The description of a hypothesis that needs the sixty-four-bit range and
/// does not get it.
pub open spec fn overflow_chars(u: Unit) -> Seq<char> {
    "error: number was too large to interpret as "@ + padded_unit_chars(u)
}

/// The description of a hypothesis whose instant left the calendar.
pub open spec fn calendar_chars(message: Seq<char>) -> Seq<char> {
    "error reported: \""@ + message + "\""@
}

/// The instant still lies in the supported calendar after shifting to the
/// local offset: exactly when a local rendering exists.
pub open spec fn shift_in_range(instant: int, offset_seconds: i32) -> bool {
    in_nanos_range(instant + offset_seconds as int * 1_000_000_000)
}

/// Renders the description of one resolved hypothesis. Without an offset
/// this always succeeds; with one it succeeds exactly when the local shift
/// stays in the calendar, failing otherwise with the fatal class.
pub fn describe_resolved(instant: i128, delta: i128, offset: Option<i32>) -> (r: Result<
    String,
    String,
>)
    requires
        in_nanos_range(instant as int),
        delta_abs(delta as int) <= MAX_DELTA_NANOS,
        offset matches Some(o) ==> plausible_offset(o as int),
    ensures
        offset is None ==> r is Ok,
        offset matches Some(o) ==> (r is Ok <==> shift_in_range(instant as int, o)),
        r matches Ok(s) ==> s@ == describe_chars(instant as int, delta as int, offset),
        r matches Err(m) ==> m@ == crate::timeapi::local_range_error_chars(),
{
    let utc = match format_utc(instant) {
        Ok(s) => s,
        Err(e) => return Err(e),
    };
    let mut text = String::from_str("UTC: ");
    text.append(utc.as_str());
    match offset {
        Some(o) => {
            let local = match format_local(instant, o) {
                Ok(s) => s,
                Err(e) => return Err(e),
            };
            text.append(" local: ");
            text.append(local.as_str());
        },
        None => {},
    }
    text.append(" (");
    let abs = if delta < 0 {
        -delta
    } else {
        delta
    };
    let seconds = (abs / 1_000_000_000) as u64;
    let subsec = (abs % 1_000_000_000) as u32;
    let human = humanize_duration(seconds, subsec);
    if delta > 0 {
        text.append("in ");
        text.append(human.as_str());
    } else {
        text.append(human.as_str());
        text.append(" ago");
    }
    text.append(")");
    proof {
        assert(text@ =~= describe_chars(instant as int, delta as int, offset));
    }
    Ok(text)
}

/// Renders the description of an overflowed hypothesis.
pub fn describe_overflow(u: Unit) -> (r: String)
    ensures
        r@ == overflow_chars(u),
{
    let mut text = String::from_str("error: number was too large to interpret as ");
    let padded = padded_unit(u);
    text.append(padded.as_str());
    text
}

/// Renders the description of a hypothesis that left the calendar.
pub fn describe_calendar(message: String) -> (r: String)
    ensures
        r@ == calendar_chars(message@),
{
    let mut text = String::from_str("error reported: \"");
    text.append(message.as_str());
    text.append("\"");
    proof {
        assert(text@ =~= calendar_chars(message@));
    }
    text
}

/// One report line: the padded unit in parentheses, then the description.
pub open spec fn line_chars(u: Unit, desc: Seq<char>) -> Seq<char> {
    "("@ + padded_unit_chars(u) + ") "@ + desc
}

/// The emphasis line above the nearest hypothesis.
pub open spec fn best_marker_chars() -> Seq<char> {
    "Best candidate unit:"@
}

/// The unit and description text of each failed entry.
pub open spec fn fail_views(s: Seq<FailedEntry>) -> Seq<(Unit, Seq<char>)> {
    Seq::new(s.len(), |i: int| (s[i].unit, s[i].description@))
}

/// The lines of the report body: the ranked resolved entries first, the
/// nearest marked and set off by one blank line from the rest, then the
/// failed entries after a blank line.
pub open spec fn report_chars(
    res: Seq<ResolvedEntry>,
    fail: Seq<(Unit, Seq<char>)>,
    offset: Option<i32>,
) -> Seq<Seq<char>> {
    let rl = Seq::new(
        res.len(),
        |i: int|
            line_chars(
                res[i].unit,
                describe_chars(res[i].instant_nanos as int, res[i].delta_nanos as int, offset),
            ),
    );
    let fl = Seq::new(fail.len(), |i: int| line_chars(fail[i].0, fail[i].1));
    let head: Seq<Seq<char>> = if res.len() == 0 {
        Seq::empty()
    } else if res.len() == 1 {
        seq![best_marker_chars(), rl[0]]
    } else {
        seq![best_marker_chars(), rl[0], Seq::<char>::empty()] + rl.skip(1)
    };
    let sep: Seq<Seq<char>> = if res.len() > 0 && fail.len() > 0 {
        seq![Seq::<char>::empty()]
    } else {
        Seq::empty()
    };
    head + (if fail.len() == 0 {
        Seq::empty()
    } else {
        sep + fl
    })
}

/// Renders one report line.
pub fn make_line(u: Unit, desc: &String) -> (r: String)
    ensures
        r@ == line_chars(u, desc@),
{
    let mut text = String::from_str("(");
    let padded = padded_unit(u);
    text.append(padded.as_str());
    text.append(") ");
    text.append(desc.as_str());
    proof {
        assert(text@ =~= line_chars(u, desc@));
    }
    text
}

/// Renders the line of one ranked resolved entry; it fails exactly as
/// describing the entry does.
fn make_resolved_line(e: &ResolvedEntry, offset: Option<i32>) -> (r: Result<String, String>)
    requires
        in_nanos_range(e.instant_nanos as int),
        delta_abs(e.delta_nanos as int) <= MAX_DELTA_NANOS,
        offset matches Some(o) ==> plausible_offset(o as int),
    ensures
        offset is None ==> r is Ok,
        offset matches Some(o) ==> (r is Ok <==> shift_in_range(e.instant_nanos as int, o)),
        r matches Err(m) ==> m@ == crate::timeapi::local_range_error_chars(),
        r matches Ok(s) ==> s@ == line_chars(
            e.unit,
            describe_chars(e.instant_nanos as int, e.delta_nanos as int, offset),
        ),
{
    let description = match describe_resolved(e.instant_nanos, e.delta_nanos, offset) {
        Ok(s) => s,
        Err(e) => return Err(e),
    };
    Ok(make_line(e.unit, &description))
}

/// Builds the report body's lines from the ranked resolved entries and the
/// failed ones. Without an offset this always succeeds; with one it succeeds
/// exactly when every resolved entry's local shift stays in the calendar,
/// failing otherwise with the fatal class.
pub fn build_report_lines(
    res: &Vec<ResolvedEntry>,
    fail: &Vec<FailedEntry>,
    offset: Option<i32>,
) -> (r: Result<Vec<String>, String>)
    requires
        forall|k: int|
            0 <= k < res@.len() ==> in_nanos_range((#[trigger] res@[k]).instant_nanos as int)
                && delta_abs(res@[k].delta_nanos as int) <= MAX_DELTA_NANOS,
        offset matches Some(o) ==> plausible_offset(o as int),
    ensures
        offset is None ==> r is Ok,
        offset matches Some(o) ==> (r is Ok <==> forall|k: int|
            0 <= k < res@.len() ==> shift_in_range((#[trigger] res@[k]).instant_nanos as int, o)),
        r matches Err(m) ==> m@ == crate::timeapi::local_range_error_chars(),
        r matches Ok(lines) ==> {
            &&& lines@.len() == report_chars(res@, fail_views(fail@), offset).len()
            &&& forall|k: int|
                0 <= k < lines@.len() ==> (#[trigger] lines@[k])@ == report_chars(
                    res@,
                    fail_views(fail@),
                    offset,
                )[k]
        },
{
    let ghost expected = report_chars(res@, fail_views(fail@), offset);
    let mut lines: Vec<String> = Vec::new();
    if res.len() > 0 {
        lines.push(String::from_str("Best candidate unit:"));
        let first = match make_resolved_line(&res[0], offset) {
            Ok(s) => s,
            Err(e) => return Err(e),
        };
        lines.push(first);
        let mut k: usize = 1;
        while k < res.len()
            invariant
                1 <= k <= res@.len(),
                expected == report_chars(res@, fail_views(fail@), offset),
                res@.len() > 0,
                forall|m: int|
                    0 <= m < res@.len() ==> in_nanos_range(
                        (#[trigger] res@[m]).instant_nanos as int,
                    ) && delta_abs(res@[m].delta_nanos as int) <= MAX_DELTA_NANOS,
                offset matches Some(o) ==> plausible_offset(o as int),
                offset matches Some(o) ==> forall|m: int|
                    0 <= m < k ==> shift_in_range((#[trigger] res@[m]).instant_nanos as int, o),
                lines@.len() == if k == 1 {
                    2int
                } else {
                    k + 2
                },
                forall|m: int| 0 <= m < lines@.len() ==> (#[trigger] lines@[m])@ == expected[m],
            decreases res@.len() - k,
        {
            if k == 1 {
                lines.push(String::new());
            }
            let next = match make_resolved_line(&res[k], offset) {
                Ok(s) => s,
                Err(e) => return Err(e),
            };
            lines.push(next);
            k = k + 1;
        }
    }
    if fail.len() > 0 {
        if res.len() > 0 {
            lines.push(String::new());
        }
        let ghost base = lines@.len() as int;
        let mut k: usize = 0;
        while k < fail.len()
            invariant
                0 <= k <= fail@.len(),
                expected == report_chars(res@, fail_views(fail@), offset),
                fail@.len() > 0,
                base == (if res@.len() == 0 {
                    0int
                } else if res@.len() == 1 {
                    3int
                } else {
                    res@.len() + 3int
                }),
                lines@.len() == base + k,
                forall|m: int| 0 <= m < lines@.len() ==> (#[trigger] lines@[m])@ == expected[m],
            decreases fail@.len() - k,
        {
            lines.push(make_line(fail[k].unit, &fail[k].description));
            k = k + 1;
        }
    }
    proof {
        assert(lines@.len() == expected.len());
    }
    Ok(lines)
}

} // verus!
