//! Real-time, block-based audio sample transforms over fixed-point samples.
//!
//! Two engine families share a per-channel history buffer:
//! a piecewise-linear interpolator that compresses the signal into line
//! segments under an error tolerance, and a pair of "dust" saturators that
//! remap each sample to a curve-warped offset into recent history.
//!
//! Samples are carried as fixed-point integers: the value `v` stands for the
//! real number `v / SCALE`. The float boundary (host I/O, the fractional
//! `curve` exponent) lives outside this crate; every transform here is exact
//! integer arithmetic with a proved contract.

use vstd::prelude::*;

pub mod history;
pub mod dither;
pub mod segment;
pub mod interp;
pub mod dust;

verus! {

/// Fixed-point scale: the integer `SCALE` stands for the real value 1.0.
pub const SCALE: i64 = 1_000_000;

/// Largest sample magnitude the engines accept; keeps all intermediate
/// arithmetic comfortably inside `i64`.
pub const MAX_MAG: i64 = 1_000_000_000_000;

/// Largest history capacity an engine can be built with.
pub const MAX_CAPACITY: usize = 4096;

/// Absolute value over mathematical integers.
pub open spec fn abs_val(x: int) -> int {
    if x >= 0 {
        x
    } else {
        -x
    }
}

/// A sequence of fixed-point samples as mathematical integers.
pub open spec fn seq_int(s: Seq<i64>) -> Seq<int> {
    s.map(|_i: int, v: i64| v as int)
}

/// A silent stretch of signal.
pub open spec fn all_zero(s: Seq<int>) -> bool {
    forall|i: int| 0 <= i < s.len() ==> #[trigger] s[i] == 0
}

} // verus!
