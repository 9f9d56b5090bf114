//! Candidate extraction: find the digit run of the input that is read as the
//! timestamp candidate.
//!
//! A fully numeric input of acceptable length is itself the candidate.
//! Otherwise the input is scanned for maximal runs of ASCII digits; among the
//! runs of acceptable length the longest wins, and of equally long runs the
//! leftmost.

use vstd::prelude::*;
use vstd::string::*;

use crate::text::{all_digits, spec_is_digit};

verus! {

/// The most digits a candidate may have.
pub const MAXIMUM_NUMBER_OF_DIGITS: usize = 21;

#[derive(Debug, PartialEq, Eq, Structural)]
pub enum ExtractError {
    /// The whole input is digits, but more than the maximum count.
    InputTooLong,
    /// No digit run of acceptable length exists.
    NoCandidateFound,
}

#[derive(Debug)]
pub struct Extraction {
    /// The chosen digit run.
    pub candidate: String,
    /// Where the run starts, in characters.
    pub start: usize,
    /// The run's length.
    pub len: usize,
    /// Whether the slow scanning path was taken (and advisories are owed).
    pub scanned: bool,
    /// How many acceptable runs the scan saw (zero on the fast path).
    pub eligible_count: usize,
}

/// The length of the digit run beginning at `i`.
pub open spec fn run_len(s: Seq<char>, i: int) -> nat
    decreases s.len() - i when i <= s.len()
{
    if 0 <= i < s.len() && spec_is_digit(s[i]) {
        1 + run_len(s, i + 1)
    } else {
        0
    }
}

/// A maximal digit run begins at `i`.
pub open spec fn run_starts(s: Seq<char>, i: int) -> bool {
    &&& 0 <= i < s.len()
    &&& spec_is_digit(s[i])
    &&& (i == 0 || !spec_is_digit(s[i - 1]))
}

/// A maximal digit run of acceptable length begins at `i`.
pub open spec fn eligible_at(s: Seq<char>, i: int) -> bool {
    run_starts(s, i) && run_len(s, i) <= MAXIMUM_NUMBER_OF_DIGITS
}

/// How many acceptable runs begin before position `p`.
pub open spec fn eligible_count_upto(s: Seq<char>, p: int) -> nat
    decreases p,
{
    if p <= 0 {
        0
    } else {
        eligible_count_upto(s, p - 1) + if eligible_at(s, p - 1) {
            1nat
        } else {
            0nat
        }
    }
}

/// No digit run of acceptable length exists anywhere in `s`.
pub open spec fn no_eligible_run(s: Seq<char>) -> bool {
    forall|i: int| run_starts(s, i) ==> run_len(s, i) > MAXIMUM_NUMBER_OF_DIGITS
}

/// `b` begins the acceptable run that extraction must choose: no acceptable
/// run is longer, and none of equal length starts earlier.
pub open spec fn chosen_run(s: Seq<char>, b: int) -> bool {
    &&& eligible_at(s, b)
    &&& forall|i: int| eligible_at(s, i) ==> run_len(s, i) <= run_len(s, b)
    &&& forall|i: int| eligible_at(s, i) && run_len(s, i) == run_len(s, b) ==> b <= i
}

/// Every character of the run beginning at `i` is a digit.
pub proof fn lemma_run_digits(s: Seq<char>, i: int)
    requires
        0 <= i <= s.len(),
    ensures
        forall|k: int| i <= k < i + run_len(s, i) ==> spec_is_digit(#[trigger] s[k]),
    decreases s.len() - i,
{
    if i < s.len() && spec_is_digit(s[i]) {
        lemma_run_digits(s, i + 1);
    }
}

/// Counting is monotonic in the position.
pub proof fn lemma_count_monotonic(s: Seq<char>, a: int, b: int)
    requires
        a <= b,
    ensures
        eligible_count_upto(s, a) <= eligible_count_upto(s, b),
    decreases b - a,
{
    if a < b {
        lemma_count_monotonic(s, a, b - 1);
    }
}

/// Over positions where no run begins, the count does not move.
pub proof fn lemma_count_skip(s: Seq<char>, a: int, b: int)
    requires
        0 <= a <= b,
        forall|p: int| a <= p < b ==> !run_starts(s, p),
    ensures
        eligible_count_upto(s, b) == eligible_count_upto(s, a),
    decreases b - a,
{
    if a < b {
        lemma_count_skip(s, a, b - 1);
    }
}

/// The count never exceeds the position.
pub proof fn lemma_count_le(s: Seq<char>, p: int)
    requires
        0 <= p,
    ensures
        eligible_count_upto(s, p) <= p,
    decreases p,
{
    if 0 < p {
        lemma_count_le(s, p - 1);
    }
}

/// An acceptable run before `b` makes the count positive.
pub proof fn lemma_count_positive(s: Seq<char>, p: int, b: int)
    requires
        0 <= p < b,
        eligible_at(s, p),
    ensures
        eligible_count_upto(s, b) >= 1,
{
    lemma_count_monotonic(s, p + 1, b);
}

/// Locates the timestamp candidate in `timestamp`.
///
/// On the fast path (a fully numeric input of acceptable length) the whole
/// input is the candidate and no advisory is owed. Otherwise the input is
/// scanned; the longest acceptable digit run wins, ties going to the leftmost.
pub fn extract(timestamp: &str) -> (r: Result<Extraction, ExtractError>)
    ensures
        ({
            let s = timestamp@;
            &&& (all_digits(s) && s.len() <= MAXIMUM_NUMBER_OF_DIGITS ==> (r matches Ok(e)
                && e.candidate@ == s && e.start == 0 && e.len == s.len() && !e.scanned
                && e.eligible_count == 0))
            &&& (r == Err::<Extraction, ExtractError>(ExtractError::InputTooLong) <==> (
            all_digits(s) && s.len() > MAXIMUM_NUMBER_OF_DIGITS))
            &&& (r == Err::<Extraction, ExtractError>(ExtractError::NoCandidateFound) <==> (
            !all_digits(s) && no_eligible_run(s)))
            &&& (!all_digits(s) ==> (r matches Ok(e) ==> {
                &&& e.scanned
                &&& chosen_run(s, e.start as int)
                &&& e.len == run_len(s, e.start as int)
                &&& e.candidate@ == s.subrange(e.start as int, e.start + e.len)
                &&& e.eligible_count == eligible_count_upto(s, s.len() as int)
                &&& e.eligible_count >= 1
            }))
            &&& (r matches Ok(e) ==> all_digits(e.candidate@) && e.candidate@.len() == e.len
                && e.len <= MAXIMUM_NUMBER_OF_DIGITS && e.start + e.len <= s.len())
        }),
{
    let ghost s = timestamp@;
    let n = timestamp.unicode_len();

    // Fast path test: is the input entirely digits?
    let mut numeric = true;
    let mut k: usize = 0;
    while k < n && numeric
        invariant
            0 <= k <= n,
            n == s.len(),
            timestamp@ == s,
            numeric ==> forall|j: int| 0 <= j < k ==> spec_is_digit(#[trigger] s[j]),
            !numeric ==> 0 <= k < n && !spec_is_digit(s[k as int]),
        decreases n - k + if numeric { 1int } else { 0int },
    {
        let c = timestamp.get_char(k);
        if (c as u32) >= 48 && (c as u32) <= 57 {
            k = k + 1;
        } else {
            numeric = false;
        }
    }

    if numeric {
        assert(all_digits(s));
        if n > MAXIMUM_NUMBER_OF_DIGITS {
            return Err(ExtractError::InputTooLong);
        }
        return Ok(Extraction {
            candidate: timestamp.to_owned(),
            start: 0,
            len: n,
            scanned: false,
            eligible_count: 0,
        });
    }
    assert(!all_digits(s));

    // Slow path: scan for maximal digit runs.
    let mut i: usize = 0;
    let mut best_start: usize = 0;
    let mut best_len: usize = 0;
    let mut count: usize = 0;
    while i < n
        invariant
            0 <= i <= n,
            n == s.len(),
            timestamp@ == s,
            count == eligible_count_upto(s, i as int),
            count <= i,
            i < n && spec_is_digit(s[i as int]) ==> run_starts(s, i as int),
            best_len > 0 ==> {
                &&& run_starts(s, best_start as int)
                &&& best_len == run_len(s, best_start as int)
                &&& best_len <= MAXIMUM_NUMBER_OF_DIGITS
                &&& best_start < i
                &&& best_start + best_len <= i
            },
            best_len > 0 ==> forall|p: int|
                0 <= p < i && eligible_at(s, p) ==> run_len(s, p) <= best_len && (run_len(s, p)
                    == best_len ==> best_start <= p),
            best_len == 0 ==> forall|p: int|
                0 <= p < i && run_starts(s, p) ==> run_len(s, p) > MAXIMUM_NUMBER_OF_DIGITS,
        decreases n - i,
    {
        let c = timestamp.get_char(i);
        if (c as u32) >= 48 && (c as u32) <= 57 {
            assert(run_starts(s, i as int));
            let i0 = i;
            let mut j = i + 1;
            let mut running = true;
            while j < n && running
                invariant
                    0 <= i0 < j <= n,
                    n == s.len(),
                    timestamp@ == s,
                    forall|m: int| i0 <= m < j ==> spec_is_digit(#[trigger] s[m]),
                    run_len(s, i0 as int) == j - i0 + run_len(s, j as int),
                    !running ==> j < n && !spec_is_digit(s[j as int]),
                decreases n - j + if running { 1int } else { 0int },
            {
                let c2 = timestamp.get_char(j);
                if (c2 as u32) >= 48 && (c2 as u32) <= 57 {
                    assert(run_len(s, j as int) == 1 + run_len(s, j + 1));
                    j = j + 1;
                } else {
                    running = false;
                }
            }
            assert(run_len(s, j as int) == 0);
            assert(run_len(s, i0 as int) == j - i0);
            let rl = j - i0;
            proof {
                // No run begins strictly inside the consumed run.
                assert(forall|p: int| i0 < p < j ==> !run_starts(s, p)) by {
                    assert(forall|p: int|
                        i0 < p < j ==> spec_is_digit(#[trigger] s[p - 1]));
                }
                lemma_count_skip(s, i0 + 1, j as int);
                lemma_count_le(s, j as int);
            }
            if rl <= MAXIMUM_NUMBER_OF_DIGITS {
                assert(eligible_at(s, i0 as int));
                count = count + 1;
                if rl > best_len {
                    best_start = i0;
                    best_len = rl;
                }
            } else {
                assert(!eligible_at(s, i0 as int));
            }
            i = j;
        } else {
            assert(!run_starts(s, i as int));
            i = i + 1;
        }
    }

    if best_len > 0 {
        proof {
            lemma_count_positive(s, best_start as int, n as int);
        }
        let candidate_slice = timestamp.substring_char(best_start, best_start + best_len);
        let candidate = candidate_slice.to_owned();
        proof {
            lemma_run_digits(s, best_start as int);
            assert(all_digits(candidate@)) by {
                assert(forall|m: int|
                    0 <= m < candidate@.len() ==> spec_is_digit(#[trigger] candidate@[m]));
            }
        }
        Ok(Extraction {
            candidate,
            start: best_start,
            len: best_len,
            scanned: true,
            eligible_count: count,
        })
    } else {
        Err(ExtractError::NoCandidateFound)
    }
}

} // verus!
