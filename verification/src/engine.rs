//! The timestamp differencing engine.
//!
//! `parse_join_dates` locates the single date anchor and every event stamp,
//! reconstructs one UTC instant per stamp, and folds the instants into the
//! stream of non-negative millisecond gaps between consecutive events,
//! together with the indices where a gap is exactly zero and the total count
//! of stamps found.  The whole observable behaviour is pinned by
//! [`spec_analyze`], a total function of the input text alone.

use crate::instant;
use crate::instant::instant_hi;
use crate::instant::instant_lo;
use crate::instant::stamp_instant;
use crate::scan;
use crate::scan::first_anchor;
use crate::scan::stamp_starts;
use vstd::arithmetic::div_mod::lemma_div_is_ordered;
use vstd::arithmetic::div_mod::lemma_div_multiples_vanish;
use vstd::prelude::*;
use vstd::string::StrSliceExecFns;
use vstd::string::StringExecFns;

verus! {

/// Why an analysis failed.
#[derive(Debug, PartialEq, Eq)]
pub enum ParseError {
    /// No `YYYY/MM/DD` anchor anywhere in the input.
    NoAnchorFound,
    /// An anchor exists but not a single event stamp does.
    NoStampsFound,
    /// A located stamp does not combine with the anchor into a valid
    /// timestamp; the whole analysis aborts.  Carries the string whose parse
    /// failed, verbatim: the anchor, a literal `T`, and the stamp.
    UnparsableTimestamp(String),
}

/// The observable outcome of an analysis, in mathematical terms.
pub enum Outcome {
    /// Filtered gap sequence, zero-gap indices, and total stamp count.
    Success { diffs: Seq<int>, zeros: Seq<int>, count: int },
    /// No anchor in the input.
    NoAnchor,
    /// Anchor present, no stamps.
    NoStamps,
    /// The combined anchor-`T`-stamp string whose parse failed, for the
    /// first failing stamp in document order.
    Unparsable { raw: Seq<char> },
}

/// The per-stamp instants under anchor position `a`: one entry per stamp,
/// `None` where reconstruction fails.
pub open spec fn instants_of(s: Seq<char>, a: int) -> Seq<Option<int>> {
    stamp_starts(s).map(|k: int, p: int| stamp_instant(s, a, p))
}

/// The reconstructed instants of a document whose analysis succeeds, in
/// document order.
pub open spec fn engine_instants(s: Seq<char>) -> Seq<int> {
    instants_of(s, first_anchor(s)->0).map(|k: int, o: Option<int>| o->0)
}

/// Index of the first `None` at or after `i`, or the length when all entries
/// from `i` on are `Some`.
pub open spec fn first_none_from(q: Seq<Option<int>>, i: int) -> int
    decreases q.len() - i,
{
    if i >= q.len() {
        i
    } else if q[i] is None {
        i
    } else {
        first_none_from(q, i + 1)
    }
}

/// Gap samples retained from the first `n` instants: for each position
/// `1 <= i < n` the delta to the predecessor, kept only when non-negative.
pub open spec fn diffs_upto(vals: Seq<int>, n: int) -> Seq<int>
    decreases n,
{
    if n <= 1 {
        Seq::empty()
    } else {
        let prev = diffs_upto(vals, n - 1);
        if vals[n - 1] - vals[n - 2] >= 0 {
            prev.push(vals[n - 1] - vals[n - 2])
        } else {
            prev
        }
    }
}

/// Positions (indices into the full stamp sequence) of the exactly-zero gaps
/// among the first `n` instants.
pub open spec fn zeros_upto(vals: Seq<int>, n: int) -> Seq<int>
    decreases n,
{
    if n <= 1 {
        Seq::empty()
    } else {
        let prev = zeros_upto(vals, n - 1);
        if vals[n - 1] - vals[n - 2] == 0 {
            prev.push(n - 1)
        } else {
            prev
        }
    }
}

/// What the engine returns on a given document: a total function of the
/// text, which is what makes the engine pure.
pub open spec fn spec_analyze(s: Seq<char>) -> Outcome {
    match first_anchor(s) {
        None => Outcome::NoAnchor,
        Some(a) => {
            let starts = stamp_starts(s);
            if starts.len() == 0 {
                Outcome::NoStamps
            } else {
                let q = instants_of(s, a);
                let k = first_none_from(q, 0);
                if k < q.len() {
                    Outcome::Unparsable {
                        raw: s.subrange(a, a + 10) + seq!['T'] + s.subrange(
                            starts[k],
                            starts[k] + 17,
                        ),
                    }
                } else {
                    let vals = engine_instants(s);
                    Outcome::Success {
                        diffs: diffs_upto(vals, vals.len() as int),
                        zeros: zeros_upto(vals, vals.len() as int),
                        count: starts.len() as int,
                    }
                }
            }
        },
    }
}

/// The outcome that an executable result stands for.
pub open spec fn result_view(r: Result<(Vec<i64>, Vec<i64>, usize), ParseError>) -> Outcome {
    match r {
        Ok(t) => Outcome::Success {
            diffs: t.0@.map_values(|x: i64| x as int),
            zeros: t.1@.map_values(|x: i64| x as int),
            count: t.2 as int,
        },
        Err(ParseError::NoAnchorFound) => Outcome::NoAnchor,
        Err(ParseError::NoStampsFound) => Outcome::NoStamps,
        Err(ParseError::UnparsableTimestamp(t)) => Outcome::Unparsable { raw: t@ },
    }
}

/// `first_none_from(q, 0)` is `i` when everything before `i` is `Some` and
/// `i` is either a `None` or the end.
proof fn lemma_first_none_seg(q: Seq<Option<int>>, t: int, i: int)
    requires
        0 <= t <= i <= q.len(),
        forall|j: int| t <= j < i ==> q[j] is Some,
        i < q.len() ==> q[i] is None,
    ensures
        first_none_from(q, t) == i,
    decreases i - t,
{
    if t < i {
        lemma_first_none_seg(q, t + 1, i);
    }
}

/// Analyze a log: anchor, stamps, instants, and the filtered gap stream.
///
/// Returns the retained gap samples in milliseconds, the indices (into the
/// full stamp sequence) of the exactly-zero gaps, and the total number of
/// stamps found — including stamps whose gap was discarded.
pub fn parse_join_dates(text: &str) -> (r: Result<(Vec<i64>, Vec<i64>, usize), ParseError>)
    ensures
        result_view(r) == spec_analyze(text@),
{
    let ghost s = text@;
    // The character count fits in usize; the loop bounds below rely on it.
    let _len: usize = text.unicode_len();
    let a: usize = match scan::find_anchor(text) {
        None => {
            return Err(ParseError::NoAnchorFound);
        },
        Some(a) => a,
    };
    proof {
        scan::lemma_first_anchor_props(s);
        scan::lemma_stamp_starts_props(s);
    }
    let starts: Vec<usize> = scan::find_stamps(text);
    if starts.len() == 0 {
        assert(stamp_starts(s).len() == 0);
        return Err(ParseError::NoStampsFound);
    }
    let ghost q = instants_of(s, a as int);
    let count: usize = starts.len();
    let mut instants: Vec<i64> = Vec::new();
    let mut idx: usize = 0;
    while idx < count
        invariant
            s == text@,
            s.len() <= usize::MAX,
            first_anchor(s) == Some(a as int),
            scan::anchor_at(s, a as int),
            starts@.map_values(|x: usize| x as int) == stamp_starts(s),
            forall|k: int|
                0 <= k < stamp_starts(s).len() ==> scan::stamp_at(
                    s,
                    #[trigger] stamp_starts(s)[k],
                ) && 0 <= stamp_starts(s)[k] && stamp_starts(s)[k] + 17 <= s.len(),
            count == starts@.len(),
            q == instants_of(s, a as int),
            idx <= count,
            instants@.len() == idx,
            forall|j: int| 0 <= j < idx ==> #[trigger] q[j] == Some(instants@[j] as int),
            forall|j: int|
                #![trigger instants@[j]]
                0 <= j < idx ==> instant_lo() <= instants@[j] <= instant_hi(),
        decreases count - idx,
    {
        let p: usize = starts[idx];
        proof {
            assert(starts@.map_values(|x: usize| x as int)[idx as int] == p as int);
            assert(stamp_starts(s)[idx as int] == p as int);
            assert(scan::stamp_at(s, p as int));
        }
        match instant::reconstruct(text, a, p) {
            Some(v) => {
                instants.push(v);
                proof {
                    assert(q[idx as int] == stamp_instant(s, a as int, p as int));
                }
            },
            None => {
                proof {
                    assert(q[idx as int] == stamp_instant(s, a as int, p as int));
                    assert(q[idx as int] is None);
                    lemma_first_none_seg(q, 0, idx as int);
                }
                let raw_anchor: &str = text.substring_char(a, a + 10);
                let raw_stamp: &str = text.substring_char(p, p + 17);
                let mut msg: String = String::from_str(raw_anchor);
                msg.append("T");
                msg.append(raw_stamp);
                proof {
                    reveal_strlit("T");
                    assert(("T")@ =~= seq!['T']);
                    assert(msg@ =~= s.subrange(a as int, a as int + 10) + seq!['T'] + s.subrange(
                        p as int,
                        p as int + 17,
                    ));
                }
                return Err(ParseError::UnparsableTimestamp(msg));
            },
        }
        idx = idx + 1;
    }
    proof {
        lemma_first_none_seg(q, 0, q.len() as int);
        assert(first_none_from(q, 0) == q.len());
    }
    let ghost vals = engine_instants(s);
    proof {
        assert(vals =~= instants@.map_values(|x: i64| x as int));
    }
    let mut diffs: Vec<i64> = Vec::new();
    let mut zeros: Vec<i64> = Vec::new();
    let mut i: usize = 1;
    while i < count
        invariant
            1 <= i <= count,
            count == instants@.len(),
            vals == instants@.map_values(|x: i64| x as int),
            forall|j: int|
                #![trigger instants@[j]]
                0 <= j < count ==> instant_lo() <= instants@[j] <= instant_hi(),
            17 * count <= usize::MAX,
            diffs@.map_values(|x: i64| x as int) == diffs_upto(vals, i as int),
            zeros@.map_values(|x: i64| x as int) == zeros_upto(vals, i as int),
        decreases count - i,
    {
        let d: i64 = instants[i] - instants[i - 1];
        proof {
            assert(vals[i as int] == instants@[i as int] as int);
            assert(vals[i as int - 1] == instants@[i as int - 1] as int);
        }
        if d >= 0 {
            diffs.push(d);
            if d == 0 {
                zeros.push(i as i64);
            }
        }
        proof {
            assert(diffs@.map_values(|x: i64| x as int) =~= diffs_upto(vals, i as int + 1));
            assert(zeros@.map_values(|x: i64| x as int) =~= zeros_upto(vals, i as int + 1));
        }
        i = i + 1;
    }
    Ok((diffs, zeros, count))
}

/// Sum of a sequence of samples.
pub open spec fn sum_of(vals: Seq<int>) -> int
    decreases vals.len(),
{
    if vals.len() == 0 {
        0
    } else {
        sum_of(vals.drop_last()) + vals.last()
    }
}

/// Mean gap in whole milliseconds (the floor of the exact mean), or `None`
/// when the difference set is empty — every sample was discarded or there
/// was a single stamp.  An empty difference set is a distinct reportable
/// condition, never a division by zero.
pub fn average_gap(diffs: &Vec<i64>) -> (r: Option<i64>)
    requires
        forall|k: int| 0 <= k < diffs@.len() ==> #[trigger] diffs@[k] >= 0,
    ensures
        (r is Some) == (diffs@.len() > 0),
        r matches Some(v) ==> v as int == sum_of(diffs@.map_values(|x: i64| x as int))
            / diffs@.len() as int,
{
    let n: usize = diffs.len();
    if n == 0 {
        return None;
    }
    let ghost m = diffs@.map_values(|x: i64| x as int);
    let mut sum: u128 = 0;
    let mut i: usize = 0;
    while i < n
        invariant
            i <= n,
            n == diffs@.len(),
            m == diffs@.map_values(|x: i64| x as int),
            forall|k: int| 0 <= k < diffs@.len() ==> #[trigger] diffs@[k] >= 0,
            sum as int == sum_of(m.subrange(0, i as int)),
            sum as int <= i * (i64::MAX as int),
        decreases n - i,
    {
        let d: i64 = diffs[i];
        proof {
            assert(m.subrange(0, i as int + 1).drop_last() =~= m.subrange(0, i as int));
            assert(m.subrange(0, i as int + 1).last() == d as int);
            assert((i + 1) * (i64::MAX as int) == i * (i64::MAX as int) + i64::MAX as int)
                by (nonlinear_arith);
            assert(n * (i64::MAX as int) <= (usize::MAX as int) * (i64::MAX as int))
                by (nonlinear_arith)
                requires
                    n <= usize::MAX,
            ;
            assert((i + 1) * (i64::MAX as int) <= n * (i64::MAX as int)) by (nonlinear_arith)
                requires
                    i + 1 <= n,
            ;
        }
        sum = sum + (d as u128);
        i = i + 1;
    }
    proof {
        assert(m.subrange(0, n as int) =~= m);
        lemma_div_is_ordered(sum as int, n * (i64::MAX as int), n as int);
        lemma_div_multiples_vanish(i64::MAX as int, n as int);
        assert(n * (i64::MAX as int) == (n as int) * (i64::MAX as int));
        assert((sum as int) / (n as int) <= i64::MAX as int);
    }
    let avg: u128 = sum / (n as u128);
    Some(avg as i64)
}

/// Total-count law: when the analysis succeeds, the reported count is
/// exactly the number of stamps located in the document — including stamps
/// whose difference sample is later discarded.
pub proof fn lemma_count_is_stamp_total(s: Seq<char>)
    requires
        spec_analyze(s) is Success,
    ensures
        spec_analyze(s) matches Outcome::Success { count, .. } && count == stamp_starts(s).len(),
{
}

/// Purity law: the engine's result is a function of the text alone, so two
/// results of analyzing the same text are observably identical.
pub proof fn lemma_analysis_deterministic(
    s: Seq<char>,
    r1: Result<(Vec<i64>, Vec<i64>, usize), ParseError>,
    r2: Result<(Vec<i64>, Vec<i64>, usize), ParseError>,
)
    requires
        result_view(r1) == spec_analyze(s),
        result_view(r2) == spec_analyze(s),
    ensures
        result_view(r1) == result_view(r2),
{
}

/// Every retained gap sample is non-negative.
proof fn lemma_diffs_nonneg(vals: Seq<int>, n: int)
    ensures
        forall|k: int| 0 <= k < diffs_upto(vals, n).len() ==> #[trigger] diffs_upto(vals, n)[k]
            >= 0,
    decreases n,
{
    if n > 1 {
        lemma_diffs_nonneg(vals, n - 1);
        let prev = diffs_upto(vals, n - 1);
        assert forall|k: int| 0 <= k < diffs_upto(vals, n).len() implies #[trigger] diffs_upto(
            vals,
            n,
        )[k] >= 0 by {
            if k < prev.len() {
                assert(diffs_upto(vals, n)[k] == prev[k]);
            }
        }
    }
}

/// When no gap is negative, nothing is filtered: the first `n` instants
/// yield exactly `n - 1` samples.
proof fn lemma_diffs_full(vals: Seq<int>, n: int)
    requires
        1 <= n <= vals.len(),
        forall|i: int| 1 <= i < n ==> vals[i - 1] <= #[trigger] vals[i],
    ensures
        diffs_upto(vals, n).len() == n - 1,
    decreases n,
{
    if n > 1 {
        lemma_diffs_full(vals, n - 1);
    }
}

/// A zero gap at position `i` is recorded: `i` enters the zero-gap index
/// sequence and a zero sample enters the gap sequence.
proof fn lemma_zero_upto_recorded(vals: Seq<int>, n: int, i: int)
    requires
        1 <= i < n <= vals.len(),
        vals[i] == vals[i - 1],
    ensures
        zeros_upto(vals, n).contains(i),
        diffs_upto(vals, n).contains(0),
    decreases n,
{
    if i == n - 1 {
        assert(zeros_upto(vals, n).last() == i);
        assert(diffs_upto(vals, n).last() == 0);
    } else {
        lemma_zero_upto_recorded(vals, n - 1, i);
        let zp = zeros_upto(vals, n - 1);
        let dp = diffs_upto(vals, n - 1);
        let kz: int = choose|k: int| 0 <= k < zp.len() && zp[k] == i;
        let kd: int = choose|k: int| 0 <= k < dp.len() && dp[k] == 0;
        assert(zeros_upto(vals, n)[kz] == i);
        assert(diffs_upto(vals, n)[kd] == 0);
    }
}

/// No-negative-deltas law: on a successful analysis whose instants never
/// step backwards, the gap sequence has exactly one sample per adjacent
/// pair — length `N - 1` for `N` stamps.
pub proof fn lemma_ordered_keeps_all_gaps(s: Seq<char>)
    requires
        spec_analyze(s) is Success,
        forall|i: int| 1 <= i < engine_instants(s).len() ==> engine_instants(s)[i - 1]
            <= #[trigger] engine_instants(s)[i],
    ensures
        spec_analyze(s) matches Outcome::Success { diffs, .. } && diffs.len() == engine_instants(
            s,
        ).len() - 1,
{
    lemma_diffs_full(engine_instants(s), engine_instants(s).len() as int);
}

/// Zero-gap law: when two adjacent instants carry the same epoch
/// millisecond, the position of the later one is recorded in the zero-gap
/// index sequence and the corresponding sample, zero, is in the gap
/// sequence.
pub proof fn lemma_zero_gap_recorded(s: Seq<char>, i: int)
    requires
        spec_analyze(s) is Success,
        1 <= i < engine_instants(s).len(),
        engine_instants(s)[i] == engine_instants(s)[i - 1],
    ensures
        spec_analyze(s) matches Outcome::Success { diffs, zeros, .. } && zeros.contains(i)
            && diffs.contains(0),
{
    lemma_zero_upto_recorded(engine_instants(s), engine_instants(s).len() as int, i);
}

/// Monotonicity-filter law: a backwards step between adjacent instants
/// leaves no sample in the gap sequence — its (negative) delta is absent —
/// while the reported count still includes every stamp.
pub proof fn lemma_out_of_order_gap_dropped(s: Seq<char>, i: int)
    requires
        spec_analyze(s) is Success,
        1 <= i < engine_instants(s).len(),
        engine_instants(s)[i] < engine_instants(s)[i - 1],
    ensures
        spec_analyze(s) matches Outcome::Success { diffs, count, .. } && !diffs.contains(
            engine_instants(s)[i] - engine_instants(s)[i - 1],
        ) && count == stamp_starts(s).len(),
{
    let vals = engine_instants(s);
    let full = diffs_upto(vals, vals.len() as int);
    lemma_diffs_nonneg(vals, vals.len() as int);
    if full.contains(vals[i] - vals[i - 1]) {
        let k: int = choose|k: int| 0 <= k < full.len() && full[k] == vals[i] - vals[i - 1];
        assert(full[k] >= 0);
    }
}

} // verus!
