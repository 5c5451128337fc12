use vstd::prelude::*;

verus! {

/// Scores, thresholds, and curve values are fixed-point: an `i64` holding the
/// value times `SCALE`, so `SCALE` itself stands for 1.0.
pub const SCALE: i64 = 1_000_000;

/// Longest sample pair the engine accepts; keeps every count times `SCALE`
/// comfortably inside `i64`.
pub const MAX_SAMPLES: usize = 1_000_000_000;

/// Largest collection of bootstrap replicate curves; keeps per-position
/// column sums inside `i64`.
pub const MAX_CURVES: usize = 1_000_000_000;

/// A fixed-point value inside the unit interval [0, 1].
pub open spec fn is_unit(v: i64) -> bool {
    0 <= v <= SCALE
}

/// Every element of the sequence lies inside the unit interval.
pub open spec fn unit_seq(s: Seq<i64>) -> bool {
    forall|i: int| 0 <= i < s.len() ==> is_unit(#[trigger] s[i])
}

} // verus!
