//! Unit interpretation: reading the candidate value under each of the four
//! time-unit hypotheses.

use vstd::prelude::*;

use crate::timeapi::{
    in_nanos_range, in_seconds_range, instant_from_nanos, instant_from_seconds,
    range_error_chars,
};
use crate::value::within_maximum;

verus! {

/// The four readings a candidate value may have.
#[derive(Clone, Copy, Debug, PartialEq, Eq, Structural)]
pub enum Unit {
    Seconds,
    Milliseconds,
    Microseconds,
    Nanoseconds,
}

/// What interpreting a value under one hypothesis yielded.
pub enum Outcome {
    /// The hypothesis resolves: the instant the value denotes, as a
    /// nanosecond timestamp, and its signed distance from "now".
    Resolved { instant_nanos: i128, delta_nanos: i128 },
    /// The value does not fit the sixty-four-bit range the hypothesis needs.
    UnitOverflow,
    /// The instant would fall outside the supported calendar; the message is
    /// the range error as reported at the conversion.
    CalendarRange { message: String },
}

/// One hypothesis together with its outcome.
pub struct Interpretation {
    pub unit: Unit,
    pub outcome: Outcome,
}

/// The unit of the hypothesis at position `k` of the fixed order.
pub open spec fn unit_at(k: int) -> Unit {
    if k == 0 {
        Unit::Seconds
    } else if k == 1 {
        Unit::Milliseconds
    } else if k == 2 {
        Unit::Microseconds
    } else {
        Unit::Nanoseconds
    }
}

/// How many nanoseconds one tick of the unit holds.
pub open spec fn unit_scale(u: Unit) -> int {
    match u {
        Unit::Seconds => 1_000_000_000,
        Unit::Milliseconds => 1_000_000,
        Unit::Microseconds => 1_000,
        Unit::Nanoseconds => 1,
    }
}

/// The value fits a signed sixty-four-bit integer.
pub open spec fn fits_i64(v: int) -> bool {
    i64::MIN <= v <= i64::MAX
}

/// Reading `value` under `u` needs the sixty-four-bit range and does not get
/// it.
pub open spec fn hypothesis_overflows(u: Unit, value: int) -> bool {
    u != Unit::Nanoseconds && !fits_i64(value)
}

/// The nanosecond timestamp that `value` denotes under `u`.
pub open spec fn hypothesis_instant(u: Unit, value: int) -> int {
    value * unit_scale(u)
}

/// Reading `value` under `u` resolves to an instant of the supported
/// calendar.
pub open spec fn hypothesis_resolves(u: Unit, value: int) -> bool {
    &&& !hypothesis_overflows(u, value)
    &&& match u {
        Unit::Seconds => in_seconds_range(value),
        _ => in_nanos_range(hypothesis_instant(u, value)),
    }
}

/// The outcome `o` is what reading `value` under `u` with reference instant
/// `now` must yield.
pub open spec fn outcome_obeys(o: Outcome, u: Unit, value: int, now: int) -> bool {
    if hypothesis_overflows(u, value) {
        o is UnitOverflow
    } else if hypothesis_resolves(u, value) {
        o matches Outcome::Resolved { instant_nanos, delta_nanos } && instant_nanos
            == hypothesis_instant(u, value) && delta_nanos == instant_nanos - now
    } else {
        o matches Outcome::CalendarRange { message } && message@ == range_error_chars()
    }
}

/// The whole array of interpretations is as owed, in the fixed order.
pub open spec fn interpretations_obey(r: Seq<Interpretation>, value: int, now: int) -> bool {
    &&& r.len() == 4
    &&& forall|k: int|
        0 <= k < 4 ==> (#[trigger] r[k]).unit == unit_at(k) && outcome_obeys(
            r[k].outcome,
            unit_at(k),
            value,
            now,
        )
}

/// Reads `value` under each hypothesis, in the fixed order seconds,
/// milliseconds, microseconds, nanoseconds.
///
/// Seconds, milliseconds and microseconds first need the value to fit a
/// signed sixty-four-bit integer; failing that the hypothesis is marked
/// overflowed and the others still proceed. A reading whose instant leaves
/// the supported calendar is marked with the range error reported there.
pub fn interpret(value: i128, now_nanos: i128) -> (r: Vec<Interpretation>)
    requires
        within_maximum(value as int),
        in_nanos_range(now_nanos as int),
    ensures
        interpretations_obey(r@, value as int, now_nanos as int),
{
    let mut r: Vec<Interpretation> = Vec::new();
    let fits = value >= i64::MIN as i128 && value <= i64::MAX as i128;

    // Seconds.
    let outcome = if !fits {
        Outcome::UnitOverflow
    } else {
        match instant_from_seconds(value as i64) {
            Ok(instant_nanos) => Outcome::Resolved {
                instant_nanos,
                delta_nanos: instant_nanos - now_nanos,
            },
            Err(message) => Outcome::CalendarRange { message },
        }
    };
    r.push(Interpretation { unit: Unit::Seconds, outcome });

    // Milliseconds.
    let outcome = if !fits {
        Outcome::UnitOverflow
    } else {
        match instant_from_nanos(value * 1_000_000) {
            Ok(instant_nanos) => Outcome::Resolved {
                instant_nanos,
                delta_nanos: instant_nanos - now_nanos,
            },
            Err(message) => Outcome::CalendarRange { message },
        }
    };
    r.push(Interpretation { unit: Unit::Milliseconds, outcome });

    // Microseconds.
    let outcome = if !fits {
        Outcome::UnitOverflow
    } else {
        match instant_from_nanos(value * 1_000) {
            Ok(instant_nanos) => Outcome::Resolved {
                instant_nanos,
                delta_nanos: instant_nanos - now_nanos,
            },
            Err(message) => Outcome::CalendarRange { message },
        }
    };
    r.push(Interpretation { unit: Unit::Microseconds, outcome });

    // Nanoseconds.
    let outcome = match instant_from_nanos(value) {
        Ok(instant_nanos) => Outcome::Resolved {
            instant_nanos,
            delta_nanos: instant_nanos - now_nanos,
        },
        Err(message) => Outcome::CalendarRange { message },
    };
    r.push(Interpretation { unit: Unit::Nanoseconds, outcome });

    r
}

} // verus!
