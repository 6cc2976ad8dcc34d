//! Breakpoint detection for the piecewise-linear reconstructor.
//!
//! A candidate segment is the line from the oldest buffered sample to the
//! sample `span` positions later. `end_point` is the greedy longest prefix of
//! that span whose samples all lie within `tol` of the line: the first index
//! whose deviation exceeds `tol`, or `span` itself when every sample fits.
//! Ties (deviation exactly equal to `tol`) extend the segment.
//!
//! The line is evaluated in fixed point: `ramp(delta, pos, len)` is the
//! fraction `delta * pos / len` rounded toward zero, so the segment meets its
//! endpoints exactly and never overshoots `delta`.

use vstd::prelude::*;

verus! {

use crate::abs_val;
use crate::MAX_CAPACITY;
use crate::MAX_MAG;
use crate::history::HistoryBuffer;
use vstd::arithmetic::div_mod::lemma_div_pos_is_pos;
use vstd::arithmetic::div_mod::lemma_div_is_ordered;
use vstd::arithmetic::div_mod::lemma_div_by_multiple;
use vstd::arithmetic::mul::lemma_mul_inequality;
use vstd::arithmetic::mul::lemma_mul_nonnegative;

/// `delta * pos / len`, rounded toward zero.
pub open spec fn ramp(delta: int, pos: int, len: int) -> int
    recommends
        0 < len,
{
    if delta >= 0 {
        (delta * pos) / len
    } else {
        -(((-delta) * pos) / len)
    }
}

/// Value of the candidate line at index `i`.
pub open spec fn line_value(h: Seq<int>, span: int, i: int) -> int
    recommends
        0 < span < h.len(),
{
    h[0] + ramp(h[span] - h[0], i, span)
}

/// How far sample `i` lies from the candidate line.
pub open spec fn deviation(h: Seq<int>, span: int, i: int) -> int
    recommends
        0 < span < h.len(),
        0 <= i < h.len(),
{
    abs_val(line_value(h, span, i) - h[i])
}

/// First index in `i..span` whose deviation exceeds `tol`, or `span`.
pub open spec fn end_point_from(h: Seq<int>, span: int, tol: int, i: int) -> int
    decreases span - i,
{
    if i >= span {
        span
    } else if deviation(h, span, i) > tol {
        i
    } else {
        end_point_from(h, span, tol, i + 1)
    }
}

/// The detected segment length: the greedy longest prefix of `1..span`
/// within `tol`, defaulting to `span` when the whole span fits.
pub open spec fn end_point(h: Seq<int>, span: int, tol: int) -> int {
    end_point_from(h, span, tol, 1)
}

/// The ramp never leaves the interval between 0 and `delta`.
pub proof fn lemma_ramp_range(delta: int, pos: int, len: int)
    requires
        0 < len,
        0 <= pos <= len,
    ensures
        delta >= 0 ==> 0 <= ramp(delta, pos, len) <= delta,
        delta < 0 ==> delta <= ramp(delta, pos, len) <= 0,
{
    let m = if delta >= 0 {
        delta
    } else {
        -delta
    };
    lemma_mul_nonnegative(m, pos);
    lemma_div_pos_is_pos(m * pos, len);
    lemma_mul_inequality(pos, len, m);
    lemma_div_is_ordered(m * pos, m * len, len);
    lemma_div_by_multiple(m, len);
    assert(m * pos == pos * m) by (nonlinear_arith);
    assert(m * len == len * m) by (nonlinear_arith);
}

pub proof fn lemma_end_point_from_range(h: Seq<int>, span: int, tol: int, i: int)
    requires
        1 <= i <= span,
    ensures
        i <= end_point_from(h, span, tol, i) <= span,
    decreases span - i,
{
    if i >= span {
    } else if deviation(h, span, i) > tol {
    } else {
        lemma_end_point_from_range(h, span, tol, i + 1);
    }
}

/// Scanning past indices that are within tolerance does not change the
/// detected end point.
pub proof fn lemma_end_point_from_skip(h: Seq<int>, span: int, tol: int, i: int, j: int)
    requires
        1 <= i <= j <= span,
        forall|k: int| i <= k < j ==> deviation(h, span, k) <= tol,
    ensures
        end_point_from(h, span, tol, i) == end_point_from(h, span, tol, j),
    decreases j - i,
{
    if i < j {
        lemma_end_point_from_skip(h, span, tol, i + 1, j);
    }
}

proof fn lemma_end_point_from_characterization(h: Seq<int>, span: int, tol: int, i: int)
    requires
        1 <= i <= span,
    ensures
        forall|k: int|
            i <= k < end_point_from(h, span, tol, i) ==> deviation(h, span, k) <= tol,
        end_point_from(h, span, tol, i) < span ==> deviation(
            h,
            span,
            end_point_from(h, span, tol, i),
        ) > tol,
    decreases span - i,
{
    if i >= span {
    } else if deviation(h, span, i) > tol {
    } else {
        lemma_end_point_from_characterization(h, span, tol, i + 1);
    }
}

/// Law: the detector is the greedy longest-prefix fit. Every index strictly
/// before the detected end point lies within the tolerance (ties extend the
/// segment), and whenever the end point falls short of the span, the sample
/// there is the first to break it.
pub proof fn lemma_end_point_characterization(h: Seq<int>, span: int, tol: int)
    requires
        1 <= span < h.len(),
    ensures
        forall|k: int| 1 <= k < end_point(h, span, tol) ==> deviation(h, span, k) <= tol,
        end_point(h, span, tol) < span ==> deviation(h, span, end_point(h, span, tol)) > tol,
{
    lemma_end_point_from_characterization(h, span, tol, 1);
}

/// Law: with a tolerance at least as wide as the whole sample range, the
/// detector always extends the segment to the full span.
pub proof fn lemma_wide_tolerance_full_span(h: Seq<int>, span: int, tol: int, bound: int)
    requires
        1 <= span < h.len(),
        0 <= bound,
        forall|i: int| 0 <= i < h.len() ==> abs_val(#[trigger] h[i]) <= bound,
        tol >= 2 * bound,
    ensures
        end_point(h, span, tol) == span,
{
    assert forall|k: int| 1 <= k < span implies deviation(h, span, k) <= tol by {
        lemma_ramp_range(h[span] - h[0], k, span);
        assert(abs_val(h[0]) <= bound);
        assert(abs_val(h[span]) <= bound);
        assert(abs_val(h[k]) <= bound);
    }
    lemma_end_point_from_skip(h, span, tol, 1, span);
}

/// Law: with zero tolerance, the first non-zero deviation ends the segment
/// immediately; in the generic case the detected segment has length 1.
pub proof fn lemma_zero_tolerance_breaks_at_one(h: Seq<int>, span: int)
    requires
        1 <= span < h.len(),
        span > 1 ==> deviation(h, span, 1) > 0,
    ensures
        end_point(h, span, 0) == 1,
{
}

/// `delta * pos / len` rounded toward zero, executable.
pub fn ramp_exec(delta: i64, pos: usize, len: usize) -> (r: i64)
    requires
        0 < len <= MAX_CAPACITY,
        pos <= len,
        -2 * MAX_MAG <= delta <= 2 * MAX_MAG,
    ensures
        r as int == ramp(delta as int, pos as int, len as int),
        -2 * MAX_MAG <= r <= 2 * MAX_MAG,
{
    let m: u64 = if delta >= 0 {
        delta as u64
    } else {
        (-delta) as u64
    };
    proof {
        lemma_mul_inequality(m as int, 2 * MAX_MAG as int, pos as int);
        lemma_mul_inequality(pos as int, MAX_CAPACITY as int, 2 * MAX_MAG as int);
        assert(m as int * pos as int == pos as int * m as int) by (nonlinear_arith);
        assert(2 * MAX_MAG as int * pos as int == pos as int * (2 * MAX_MAG as int))
            by (nonlinear_arith);
        lemma_ramp_range(delta as int, pos as int, len as int);
    }
    let prod: u64 = m * (pos as u64);
    let q: u64 = prod / (len as u64);
    if delta >= 0 {
        q as i64
    } else {
        -(q as i64)
    }
}

/// Scan the candidate span and return the detected end point.
pub fn find_end_point(h: &HistoryBuffer, span: usize, tol: i64) -> (ep: usize)
    requires
        h.wf(),
        1 <= span,
        (span as nat) < h@.len(),
        0 <= tol,
    ensures
        ep as int == end_point(h@, span as int, tol as int),
        1 <= ep <= span,
{
    proof {
        h.lemma_wf_facts();
    }
    let anchor = h.read(0);
    let last = h.read(span);
    let delta = last - anchor;
    let mut i: usize = 1;
    while i < span
        invariant
            h.wf(),
            1 <= i <= span,
            (span as nat) < h@.len(),
            h@.len() <= MAX_CAPACITY as nat,
            0 <= tol,
            anchor as int == h@[0],
            last as int == h@[span as int],
            delta as int == h@[span as int] - h@[0],
            -MAX_MAG <= anchor <= MAX_MAG,
            -2 * MAX_MAG <= delta <= 2 * MAX_MAG,
            forall|k: int| 1 <= k < i ==> deviation(h@, span as int, k) <= tol as int,
        decreases span - i,
    {
        let r = ramp_exec(delta, i, span);
        let approx = anchor + r;
        let actual = h.read(i);
        let dev = if approx >= actual {
            approx - actual
        } else {
            actual - approx
        };
        assert(dev as int == deviation(h@, span as int, i as int));
        if dev > tol {
            proof {
                lemma_end_point_from_skip(h@, span as int, tol as int, 1, i as int);
            }
            return i;
        }
        i += 1;
    }
    proof {
        lemma_end_point_from_skip(h@, span as int, tol as int, 1, span as int);
    }
    span
}

} // verus!
