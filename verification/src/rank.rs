//! Ranking: resolved interpretations are ordered by how far their instant
//! lies from "now", nearest first, ties kept in the fixed hypothesis order.

use vstd::prelude::*;

use crate::interpret::Unit;

verus! {

/// A resolved hypothesis, ready for ranking: its unit, its instant, and its
/// signed distance from "now".
#[derive(Clone, Copy, Debug, PartialEq, Eq, Structural)]
pub struct ResolvedEntry {
    pub unit: Unit,
    pub instant_nanos: i128,
    pub delta_nanos: i128,
}

/// The magnitude of a signed distance.
pub open spec fn delta_abs(d: int) -> int {
    if d < 0 {
        -d
    } else {
        d
    }
}

/// The ranking key of an entry.
pub open spec fn abs_key(e: ResolvedEntry) -> int {
    delta_abs(e.delta_nanos as int)
}

/// `x` placed after every element of `s` whose key is at most `x`'s: the
/// stable insertion position.
pub open spec fn insert_sorted(s: Seq<ResolvedEntry>, x: ResolvedEntry) -> Seq<ResolvedEntry>
    decreases s.len(),
{
    if s.len() == 0 {
        seq![x]
    } else if abs_key(s[0]) <= abs_key(x) {
        seq![s[0]] + insert_sorted(s.drop_first(), x)
    } else {
        seq![x] + s
    }
}

/// The stable sort of `s` ascending by key: the order that ranking owes.
pub open spec fn stable_sorted(s: Seq<ResolvedEntry>) -> Seq<ResolvedEntry>
    decreases s.len(),
{
    if s.len() == 0 {
        s
    } else {
        insert_sorted(stable_sorted(s.drop_last()), s.last())
    }
}

/// Keys never decrease along `s`.
pub open spec fn sorted_by_key(s: Seq<ResolvedEntry>) -> bool {
    forall|i: int, j: int| 0 <= i <= j < s.len() ==> abs_key(s[i]) <= abs_key(s[j])
}

pub proof fn lemma_insert_sorted_len(s: Seq<ResolvedEntry>, x: ResolvedEntry)
    ensures
        insert_sorted(s, x).len() == s.len() + 1,
    decreases s.len(),
{
    if s.len() > 0 && abs_key(s[0]) <= abs_key(x) {
        lemma_insert_sorted_len(s.drop_first(), x);
    }
}

pub proof fn lemma_stable_sorted_len(s: Seq<ResolvedEntry>)
    ensures
        stable_sorted(s).len() == s.len(),
    decreases s.len(),
{
    if s.len() > 0 {
        lemma_stable_sorted_len(s.drop_last());
        lemma_insert_sorted_len(stable_sorted(s.drop_last()), s.last());
    }
}

pub proof fn lemma_insert_preserves_sorted(s: Seq<ResolvedEntry>, x: ResolvedEntry)
    requires
        sorted_by_key(s),
    ensures
        sorted_by_key(insert_sorted(s, x)),
    decreases s.len(),
{
    lemma_insert_sorted_len(s, x);
    if s.len() > 0 && abs_key(s[0]) <= abs_key(x) {
        assert(sorted_by_key(s.drop_first()));
        lemma_insert_preserves_sorted(s.drop_first(), x);
        lemma_insert_sorted_len(s.drop_first(), x);
        let t = seq![s[0]] + insert_sorted(s.drop_first(), x);
        assert forall|i: int, j: int| 0 <= i <= j < t.len() implies abs_key(t[i]) <= abs_key(
            t[j],
        ) by {
            if i == 0 && j > 0 {
                lemma_insert_first_key(s.drop_first(), x);
                assert(sorted_by_key(insert_sorted(s.drop_first(), x)));
                if insert_sorted(s.drop_first(), x).len() > 0 {
                    assert(abs_key(t[j]) >= abs_key(insert_sorted(s.drop_first(), x)[0]));
                }
            }
        }
    }
}

/// The head of an insertion: the smaller of the old head and the new element.
pub proof fn lemma_insert_first_key(s: Seq<ResolvedEntry>, x: ResolvedEntry)
    ensures
        s.len() == 0 ==> insert_sorted(s, x)[0] == x,
        s.len() > 0 && abs_key(s[0]) <= abs_key(x) ==> insert_sorted(s, x)[0] == s[0],
        s.len() > 0 && abs_key(s[0]) > abs_key(x) ==> insert_sorted(s, x)[0] == x,
{
}

/// RANKING LAW: the sort is ascending in distance from "now".
pub proof fn lemma_stable_sorted_sorted(s: Seq<ResolvedEntry>)
    ensures
        sorted_by_key(stable_sorted(s)),
    decreases s.len(),
{
    if s.len() > 0 {
        lemma_stable_sorted_sorted(s.drop_last());
        lemma_insert_preserves_sorted(stable_sorted(s.drop_last()), s.last());
    }
}

/// RANKING LAW: the first ranked entry is an input entry whose distance from
/// "now" no input entry beats, and which no earlier input entry ties: the
/// best candidate is the nearest hypothesis, ties resolved toward the fixed
/// input order.
pub proof fn lemma_stable_sorted_first(s: Seq<ResolvedEntry>)
    requires
        s.len() > 0,
    ensures
        exists|j: int|
            {
                &&& 0 <= j < s.len()
                &&& #[trigger] stable_sorted(s)[0] == s[j]
                &&& forall|k: int| 0 <= k < s.len() ==> abs_key(s[j]) <= abs_key(#[trigger] s[k])
                &&& forall|k: int| 0 <= k < j ==> abs_key(s[j]) < abs_key(#[trigger] s[k])
            },
    decreases s.len(),
{
    lemma_stable_sorted_len(s.drop_last());
    let t = stable_sorted(s.drop_last());
    let x = s.last();
    if s.len() == 1 {
        assert(stable_sorted(s)[0] == x);
        assert(stable_sorted(s)[0] == s[0]);
        assert forall|k: int| 0 <= k < s.len() implies abs_key(s[0]) <= abs_key(
            #[trigger] s[k],
        ) by {}
    } else {
        lemma_stable_sorted_first(s.drop_last());
        let j0 = choose|j: int|
            {
                &&& 0 <= j < s.drop_last().len()
                &&& #[trigger] stable_sorted(s.drop_last())[0] == s.drop_last()[j]
                &&& forall|k: int|
                    0 <= k < s.drop_last().len() ==> abs_key(s.drop_last()[j]) <= abs_key(
                        #[trigger] s.drop_last()[k],
                    )
                &&& forall|k: int|
                    0 <= k < j ==> abs_key(s.drop_last()[j]) < abs_key(#[trigger] s.drop_last()[k])
            };
        lemma_insert_first_key(t, x);
        assert(s.drop_last()[j0] == s[j0]);
        if abs_key(t[0]) <= abs_key(x) {
            let j = j0;
            assert(stable_sorted(s)[0] == s[j]);
            assert forall|k: int| 0 <= k < s.len() implies abs_key(s[j]) <= abs_key(
                #[trigger] s[k],
            ) by {
                if k < s.len() - 1 {
                    assert(s.drop_last()[k] == s[k]);
                } else {
                    assert(s[k] == x);
                }
            }
            assert forall|k: int| 0 <= k < j implies abs_key(s[j]) < abs_key(#[trigger] s[k]) by {
                assert(s.drop_last()[k] == s[k]);
            }
        } else {
            let j = s.len() - 1;
            assert(stable_sorted(s)[0] == x);
            assert(s[j] == x);
            assert forall|k: int| 0 <= k < s.len() implies abs_key(s[j]) <= abs_key(
                #[trigger] s[k],
            ) by {
                if k < s.len() - 1 {
                    assert(s.drop_last()[k] == s[k]);
                    assert(abs_key(t[0]) <= abs_key(s.drop_last()[j0]));
                }
            }
            assert forall|k: int| 0 <= k < j implies abs_key(s[j]) < abs_key(#[trigger] s[k]) by {
                assert(s.drop_last()[k] == s[k]);
                assert(abs_key(t[0]) <= abs_key(s.drop_last()[j0]));
            }
        }
    }
}

/// An insertion at the position the scan found is the stable insertion.
proof fn lemma_insert_sorted_split(s: Seq<ResolvedEntry>, x: ResolvedEntry, idx: int)
    requires
        0 <= idx <= s.len(),
        forall|k: int| 0 <= k < idx ==> abs_key(#[trigger] s[k]) <= abs_key(x),
        idx < s.len() ==> abs_key(s[idx]) > abs_key(x),
    ensures
        insert_sorted(s, x) == s.take(idx) + seq![x] + s.skip(idx),
    decreases idx,
{
    if idx == 0 {
        if s.len() == 0 {
            assert(insert_sorted(s, x) =~= s.take(0) + seq![x] + s.skip(0));
        } else {
            assert(insert_sorted(s, x) =~= s.take(0) + seq![x] + s.skip(0));
        }
    } else {
        assert(abs_key(s[0]) <= abs_key(x));
        let d = s.drop_first();
        assert forall|k: int| 0 <= k < idx - 1 implies abs_key(#[trigger] d[k]) <= abs_key(x) by {
            assert(d[k] == s[k + 1]);
        }
        assert(idx - 1 < d.len() ==> abs_key(d[idx - 1]) > abs_key(x));
        lemma_insert_sorted_split(d, x, idx - 1);
        assert(insert_sorted(s, x) =~= s.take(idx) + seq![x] + s.skip(idx));
    }
}

/// The magnitude of an entry's distance from "now".
fn abs_entry(e: &ResolvedEntry) -> (r: i128)
    requires
        e.delta_nanos > i128::MIN,
    ensures
        r == abs_key(*e),
{
    if e.delta_nanos < 0 {
        -e.delta_nanos
    } else {
        e.delta_nanos
    }
}

/// Places `x` into the sorted `v`, after every entry whose key is at most
/// `x`'s.
fn insert_entry(v: &mut Vec<ResolvedEntry>, x: ResolvedEntry)
    requires
        x.delta_nanos > i128::MIN,
        forall|k: int| 0 <= k < old(v)@.len() ==> (#[trigger] old(v)@[k]).delta_nanos > i128::MIN,
    ensures
        final(v)@ == insert_sorted(old(v)@, x),
{
    let kx = abs_entry(&x);
    let ghost s = v@;
    let mut idx: usize = 0;
    let mut scanning = true;
    while scanning
        invariant
            v@ == s,
            0 <= idx <= s.len(),
            kx == abs_key(x),
            forall|k: int| 0 <= k < s.len() ==> (#[trigger] s[k]).delta_nanos > i128::MIN,
            forall|k: int| 0 <= k < idx ==> abs_key(#[trigger] s[k]) <= abs_key(x),
            !scanning ==> (idx == s.len() || abs_key(s[idx as int]) > abs_key(x)),
        decreases s.len() - idx + if scanning { 1int } else { 0int },
    {
        if idx < v.len() {
            let ke = abs_entry(&v[idx]);
            if ke <= kx {
                idx = idx + 1;
            } else {
                scanning = false;
            }
        } else {
            scanning = false;
        }
    }
    v.insert(idx, x);
    proof {
        lemma_insert_sorted_split(s, x, idx as int);
        assert(v@ =~= s.take(idx as int) + seq![x] + s.skip(idx as int));
    }
}

/// Sorts the resolved entries ascending by distance from "now", keeping
/// equally distant entries in their incoming order.
pub fn sort_entries(entries: Vec<ResolvedEntry>) -> (r: Vec<ResolvedEntry>)
    requires
        forall|k: int|
            0 <= k < entries@.len() ==> (#[trigger] entries@[k]).delta_nanos > i128::MIN,
    ensures
        r@ == stable_sorted(entries@),
{
    let ghost orig = entries@;
    let mut v = entries;
    let mut out: Vec<ResolvedEntry> = Vec::new();
    while v.len() > 0
        invariant
            v@ == orig.skip(orig.len() - v@.len()),
            v@.len() <= orig.len(),
            out@ == stable_sorted(orig.take(orig.len() - v@.len())),
            forall|k: int| 0 <= k < orig.len() ==> (#[trigger] orig[k]).delta_nanos > i128::MIN,
            forall|k: int| 0 <= k < out@.len() ==> (#[trigger] out@[k]).delta_nanos > i128::MIN,
        decreases v@.len(),
    {
        let ghost i = orig.len() - v@.len();
        let e = v.remove(0);
        proof {
            assert(e == orig[i]);
            assert(v@ =~= orig.skip(i + 1));
        }
        insert_entry(&mut out, e);
        proof {
            assert(orig.take(i + 1).drop_last() =~= orig.take(i));
            assert(orig.take(i + 1).last() == orig[i]);
            lemma_stable_sorted_len(orig.take(i + 1));
            assert(out@ == stable_sorted(orig.take(i + 1)));
            lemma_entries_bounded(orig, i + 1, out@);
        }
    }
    proof {
        assert(orig.take(orig.len() as int) =~= orig);
    }
    out
}

/// Whatever the sort holds came from the input, so its bounds carry over.
proof fn lemma_entries_bounded(orig: Seq<ResolvedEntry>, n: int, out: Seq<ResolvedEntry>)
    requires
        0 <= n <= orig.len(),
        out == stable_sorted(orig.take(n)),
        forall|k: int| 0 <= k < orig.len() ==> (#[trigger] orig[k]).delta_nanos > i128::MIN,
    ensures
        forall|k: int| 0 <= k < out.len() ==> (#[trigger] out[k]).delta_nanos > i128::MIN,
{
    lemma_sorted_membership(orig.take(n));
    assert forall|k: int| 0 <= k < out.len() implies (#[trigger] out[k]).delta_nanos
        > i128::MIN by {
        let t = orig.take(n);
        assert(stable_sorted(t)[k] == out[k]);
        let j = choose|j: int| 0 <= j < t.len() && stable_sorted(t)[k] == t[j];
        assert(t[j] == orig[j]);
    }
}

/// Every ranked entry is one of the input entries.
pub proof fn lemma_sorted_membership(s: Seq<ResolvedEntry>)
    ensures
        forall|k: int|
            0 <= k < stable_sorted(s).len() ==> exists|j: int|
                0 <= j < s.len() && #[trigger] stable_sorted(s)[k] == s[j],
    decreases s.len(),
{
    lemma_stable_sorted_len(s);
    if s.len() > 0 {
        lemma_sorted_membership(s.drop_last());
        lemma_stable_sorted_len(s.drop_last());
        let t = stable_sorted(s.drop_last());
        let x = s.last();
        lemma_insert_membership(t, x);
        assert forall|k: int| 0 <= k < stable_sorted(s).len() implies exists|j: int|
            0 <= j < s.len() && #[trigger] stable_sorted(s)[k] == s[j] by {
            let e = stable_sorted(s)[k];
            assert(exists|m: int| 0 <= m < t.len() && insert_sorted(t, x)[k] == t[m]
                || insert_sorted(t, x)[k] == x);
            if e == x {
                assert(s[s.len() - 1] == x);
            } else {
                let m = choose|m: int| 0 <= m < t.len() && insert_sorted(t, x)[k] == t[m];
                let j = choose|j: int| 0 <= j < s.drop_last().len() && t[m] == s.drop_last()[j];
                assert(s.drop_last()[j] == s[j]);
            }
        }
    }
}

/// Every input entry appears among the ranked ones.
pub proof fn lemma_sorted_membership_rev(s: Seq<ResolvedEntry>)
    ensures
        forall|j: int|
            0 <= j < s.len() ==> exists|k: int|
                0 <= k < stable_sorted(s).len() && stable_sorted(s)[k] == #[trigger] s[j],
    decreases s.len(),
{
    lemma_stable_sorted_len(s);
    if s.len() > 0 {
        lemma_sorted_membership_rev(s.drop_last());
        lemma_stable_sorted_len(s.drop_last());
        let t = stable_sorted(s.drop_last());
        let x = s.last();
        lemma_insert_membership_rev(t, x);
        assert forall|j: int| 0 <= j < s.len() implies exists|k: int|
            0 <= k < stable_sorted(s).len() && stable_sorted(s)[k] == #[trigger] s[j] by {
            if j < s.len() - 1 {
                assert(s.drop_last()[j] == s[j]);
                let m = choose|m: int| 0 <= m < t.len() && t[m] == s.drop_last()[j];
                let k = choose|k: int|
                    0 <= k < insert_sorted(t, x).len() && insert_sorted(t, x)[k] == t[m];
                assert(stable_sorted(s)[k] == s[j]);
            } else {
                let k = choose|k: int|
                    0 <= k < insert_sorted(t, x).len() && insert_sorted(t, x)[k] == x;
                assert(stable_sorted(s)[k] == s[j]);
            }
        }
    }
}

/// The new element and every old one appear in an insertion.
proof fn lemma_insert_membership_rev(s: Seq<ResolvedEntry>, x: ResolvedEntry)
    ensures
        forall|m: int|
            0 <= m < s.len() ==> exists|k: int|
                0 <= k < insert_sorted(s, x).len() && insert_sorted(s, x)[k] == #[trigger] s[m],
        exists|k: int| 0 <= k < insert_sorted(s, x).len() && insert_sorted(s, x)[k] == x,
    decreases s.len(),
{
    lemma_insert_sorted_len(s, x);
    if s.len() == 0 || abs_key(s[0]) > abs_key(x) {
        assert(insert_sorted(s, x)[0] == x);
        assert forall|m: int| 0 <= m < s.len() implies exists|k: int|
            0 <= k < insert_sorted(s, x).len() && insert_sorted(s, x)[k] == #[trigger] s[m] by {
            assert(insert_sorted(s, x)[m + 1] == s[m]);
        }
    } else {
        lemma_insert_membership_rev(s.drop_first(), x);
        lemma_insert_sorted_len(s.drop_first(), x);
        let d = insert_sorted(s.drop_first(), x);
        assert forall|m: int| 0 <= m < s.len() implies exists|k: int|
            0 <= k < insert_sorted(s, x).len() && insert_sorted(s, x)[k] == #[trigger] s[m] by {
            if m == 0 {
                assert(insert_sorted(s, x)[0] == s[0]);
            } else {
                assert(s.drop_first()[m - 1] == s[m]);
                let k = choose|k: int| 0 <= k < d.len() && d[k] == s.drop_first()[m - 1];
                assert(insert_sorted(s, x)[k + 1] == d[k]);
            }
        }
        let k = choose|k: int| 0 <= k < d.len() && d[k] == x;
        assert(insert_sorted(s, x)[k + 1] == x);
    }
}

/// Every element of an insertion is the new element or an old one.
proof fn lemma_insert_membership(s: Seq<ResolvedEntry>, x: ResolvedEntry)
    ensures
        forall|k: int|
            0 <= k < insert_sorted(s, x).len() ==> (exists|m: int|
                0 <= m < s.len() && #[trigger] insert_sorted(s, x)[k] == s[m]) || insert_sorted(
                s,
                x,
            )[k] == x,
    decreases s.len(),
{
    lemma_insert_sorted_len(s, x);
    if s.len() > 0 && abs_key(s[0]) <= abs_key(x) {
        lemma_insert_membership(s.drop_first(), x);
        lemma_insert_sorted_len(s.drop_first(), x);
        let t = insert_sorted(s, x);
        let d = insert_sorted(s.drop_first(), x);
        assert forall|k: int| 0 <= k < t.len() implies (exists|m: int|
            0 <= m < s.len() && #[trigger] t[k] == s[m]) || t[k] == x by {
            if k == 0 {
                assert(t[0] == s[0]);
            } else {
                assert(t[k] == d[k - 1]);
                if d[k - 1] != x {
                    let m = choose|m: int|
                        0 <= m < s.drop_first().len() && d[k - 1] == s.drop_first()[m];
                    assert(s.drop_first()[m] == s[m + 1]);
                }
            }
        }
    }
}

} // verus!
