use vstd::prelude::*;

use crate::units::{is_unit, MAX_SAMPLES, SCALE};

verus! {

/// Whether sample `k` takes part in the confusion counts. When
/// `exclude_perfect` is set, samples whose quality score is exactly 1.0 are
/// left out of every count as uninformative already-perfect cases; the flag
/// is explicit configuration, never inferred.
pub open spec fn counted(yk: i64, exclude_perfect: bool) -> bool {
    !exclude_perfect || yk != SCALE
}

/// Number of counted samples whose quality score reaches the quality
/// threshold `thy`.
pub open spec fn high_count(y: Seq<i64>, thy: i64, excl: bool) -> int
    decreases y.len(),
{
    if y.len() == 0 {
        0
    } else {
        high_count(y.drop_last(), thy, excl) + if y.last() >= thy && counted(y.last(), excl) {
            1int
        } else {
            0int
        }
    }
}

/// Number of counted samples accepted by the score threshold `th` whose
/// quality reaches `thy`: the true positives of one grid position.
pub open spec fn tp_count(x: Seq<i64>, y: Seq<i64>, th: i64, thy: i64, excl: bool) -> int
    decreases x.len(),
{
    if x.len() == 0 || y.len() == 0 {
        0
    } else {
        tp_count(x.drop_last(), y.drop_last(), th, thy, excl) + if x.last() >= th && y.last()
            >= thy && counted(y.last(), excl) {
            1int
        } else {
            0int
        }
    }
}

/// Number of counted samples accepted by the score threshold `th` whose
/// quality falls short of `thy`: the false negatives of one grid position
/// (quality-poor samples that a score cut at `th` fails to reject).
pub open spec fn fn_count(x: Seq<i64>, y: Seq<i64>, th: i64, thy: i64, excl: bool) -> int
    decreases x.len(),
{
    if x.len() == 0 || y.len() == 0 {
        0
    } else {
        fn_count(x.drop_last(), y.drop_last(), th, thy, excl) + if x.last() >= th && y.last()
            < thy && counted(y.last(), excl) {
            1int
        } else {
            0int
        }
    }
}

/// The precision value of one grid position. When no counted sample reaches
/// the quality threshold the curve saturates at 1.0 — the documented policy
/// for degenerate positions — otherwise it is the true-positive count over
/// the pair length, in fixed point.
pub open spec fn precision_at(x: Seq<i64>, y: Seq<i64>, th: i64, thy: i64, excl: bool) -> i64 {
    if high_count(y, thy, excl) == 0 {
        SCALE
    } else {
        (tp_count(x, y, th, thy, excl) * SCALE / y.len() as int) as i64
    }
}

/// The false-negative-rate value of one grid position, saturating at 1.0
/// alongside `precision_at`.
pub open spec fn fnr_at(x: Seq<i64>, y: Seq<i64>, th: i64, thy: i64, excl: bool) -> i64 {
    if high_count(y, thy, excl) == 0 {
        SCALE
    } else {
        (fn_count(x, y, th, thy, excl) * SCALE / y.len() as int) as i64
    }
}

proof fn lemma_high_count_bounds(y: Seq<i64>, thy: i64, excl: bool)
    ensures
        0 <= high_count(y, thy, excl) <= y.len(),
    decreases y.len(),
{
    if y.len() > 0 {
        lemma_high_count_bounds(y.drop_last(), thy, excl);
    }
}

proof fn lemma_tp_fn_count_bounds(x: Seq<i64>, y: Seq<i64>, th: i64, thy: i64, excl: bool)
    ensures
        0 <= tp_count(x, y, th, thy, excl) <= x.len(),
        0 <= fn_count(x, y, th, thy, excl) <= x.len(),
    decreases x.len(),
{
    if x.len() > 0 && y.len() > 0 {
        lemma_tp_fn_count_bounds(x.drop_last(), y.drop_last(), th, thy, excl);
    }
}

/// A count of at most `len` scaled by `SCALE` and divided by `len` lands in
/// the unit interval.
proof fn lemma_frac_unit(count: int, len: int)
    requires
        0 <= count <= len,
        1 <= len,
    ensures
        0 <= count * SCALE / len <= SCALE,
{
    vstd::arithmetic::mul::lemma_mul_nonnegative(count, SCALE as int);
    vstd::arithmetic::div_mod::lemma_div_pos_is_pos(count * SCALE, len);
    vstd::arithmetic::mul::lemma_mul_inequality(count, len, SCALE as int);
    vstd::arithmetic::div_mod::lemma_div_is_ordered(count * SCALE, len * SCALE, len);
    vstd::arithmetic::div_mod::lemma_div_multiples_vanish(SCALE as int, len);
}

/// Law: confusion counts are monotonically non-increasing in the score
/// threshold — a stricter acceptance cutoff never increases the count of
/// samples passing it, for a fixed quality threshold.
pub proof fn lemma_counts_monotone(
    x: Seq<i64>,
    y: Seq<i64>,
    th1: i64,
    th2: i64,
    thy: i64,
    excl: bool,
)
    requires
        th1 <= th2,
    ensures
        tp_count(x, y, th2, thy, excl) <= tp_count(x, y, th1, thy, excl),
        fn_count(x, y, th2, thy, excl) <= fn_count(x, y, th1, thy, excl),
    decreases x.len(),
{
    if x.len() > 0 && y.len() > 0 {
        lemma_counts_monotone(x.drop_last(), y.drop_last(), th1, th2, thy, excl);
    }
}

/// Law: the emitted curves inherit that monotonicity — at a stricter score
/// threshold neither the precision value nor the false-negative-rate value
/// of a grid position grows, for a fixed quality threshold.
pub proof fn lemma_curves_monotone(
    x: Seq<i64>,
    y: Seq<i64>,
    th1: i64,
    th2: i64,
    thy: i64,
    excl: bool,
)
    requires
        th1 <= th2,
        x.len() == y.len(),
    ensures
        precision_at(x, y, th2, thy, excl) <= precision_at(x, y, th1, thy, excl),
        fnr_at(x, y, th2, thy, excl) <= fnr_at(x, y, th1, thy, excl),
{
    lemma_counts_monotone(x, y, th1, th2, thy, excl);
    if high_count(y, thy, excl) != 0 {
        lemma_high_count_bounds(y, thy, excl);
        lemma_tp_fn_count_bounds(x, y, th1, thy, excl);
        lemma_tp_fn_count_bounds(x, y, th2, thy, excl);
        let n = y.len() as int;
        lemma_frac_unit(tp_count(x, y, th1, thy, excl), n);
        lemma_frac_unit(tp_count(x, y, th2, thy, excl), n);
        lemma_frac_unit(fn_count(x, y, th1, thy, excl), n);
        lemma_frac_unit(fn_count(x, y, th2, thy, excl), n);
        vstd::arithmetic::mul::lemma_mul_inequality(
            tp_count(x, y, th2, thy, excl),
            tp_count(x, y, th1, thy, excl),
            SCALE as int,
        );
        vstd::arithmetic::mul::lemma_mul_inequality(
            fn_count(x, y, th2, thy, excl),
            fn_count(x, y, th1, thy, excl),
            SCALE as int,
        );
        vstd::arithmetic::div_mod::lemma_div_is_ordered(
            tp_count(x, y, th2, thy, excl) * SCALE,
            tp_count(x, y, th1, thy, excl) * SCALE,
            n,
        );
        vstd::arithmetic::div_mod::lemma_div_is_ordered(
            fn_count(x, y, th2, thy, excl) * SCALE,
            fn_count(x, y, th1, thy, excl) * SCALE,
            n,
        );
    }
}

/// The per-threshold confusion evaluator: for each candidate score threshold
/// of the quantile grid, the precision and false-negative-rate values of one
/// resampled pair at quality threshold `thy`. A pure function of its inputs
/// with no failure modes; positions where no counted sample reaches `thy`
/// saturate at 1.0.
pub fn compute_precision_fnr(
    xb: &Vec<i64>,
    yb: &Vec<i64>,
    thy: i64,
    quantiles: &Vec<i64>,
    exclude_perfect: bool,
) -> (r: (Vec<i64>, Vec<i64>))
    requires
        xb@.len() == yb@.len(),
        xb@.len() <= MAX_SAMPLES,
    ensures
        r.0@.len() == quantiles@.len(),
        r.1@.len() == quantiles@.len(),
        forall|i: int|
            0 <= i < quantiles@.len() ==> r.0@[i] == precision_at(
                xb@,
                yb@,
                quantiles@[i],
                thy,
                exclude_perfect,
            ),
        forall|i: int|
            0 <= i < quantiles@.len() ==> r.1@[i] == fnr_at(
                xb@,
                yb@,
                quantiles@[i],
                thy,
                exclude_perfect,
            ),
        forall|i: int| 0 <= i < r.0@.len() ==> is_unit(#[trigger] r.0@[i]),
        forall|i: int| 0 <= i < r.1@.len() ==> is_unit(#[trigger] r.1@[i]),
{
    let n = yb.len();
    let mut n_high: usize = 0;
    for k in 0..n
        invariant
            n == yb@.len(),
            n <= MAX_SAMPLES,
            n_high == high_count(yb@.take(k as int), thy, exclude_perfect),
            n_high <= k,
    {
        proof {
            assert(yb@.take(k + 1).drop_last() =~= yb@.take(k as int));
            lemma_high_count_bounds(yb@.take(k as int), thy, exclude_perfect);
        }
        if yb[k] >= thy && (!exclude_perfect || yb[k] != SCALE) {
            n_high += 1;
        }
    }
    proof {
        assert(yb@.take(n as int) =~= yb@);
    }

    let mut prec: Vec<i64> = Vec::new();
    let mut fnr: Vec<i64> = Vec::new();
    let m = quantiles.len();
    for i in 0..m
        invariant
            m == quantiles@.len(),
            xb@.len() == yb@.len(),
            xb@.len() == n,
            n <= MAX_SAMPLES,
            n_high == high_count(yb@, thy, exclude_perfect),
            prec@.len() == i,
            fnr@.len() == i,
            forall|j: int|
                0 <= j < i ==> prec@[j] == precision_at(
                    xb@,
                    yb@,
                    quantiles@[j],
                    thy,
                    exclude_perfect,
                ),
            forall|j: int|
                0 <= j < i ==> fnr@[j] == fnr_at(xb@, yb@, quantiles@[j], thy, exclude_perfect),
            forall|j: int| 0 <= j < prec@.len() ==> is_unit(#[trigger] prec@[j]),
            forall|j: int| 0 <= j < fnr@.len() ==> is_unit(#[trigger] fnr@[j]),
    {
        let th = quantiles[i];
        if n_high == 0 {
            prec.push(SCALE);
            fnr.push(SCALE);
        } else {
            let mut tp: usize = 0;
            let mut fnc: usize = 0;
            for k in 0..n
                invariant
                    n == xb@.len(),
                    n == yb@.len(),
                    n <= MAX_SAMPLES,
                    tp == tp_count(xb@.take(k as int), yb@.take(k as int), th, thy,
                        exclude_perfect),
                    fnc == fn_count(xb@.take(k as int), yb@.take(k as int), th, thy,
                        exclude_perfect),
                    tp <= k,
                    fnc <= k,
            {
                proof {
                    assert(xb@.take(k + 1).drop_last() =~= xb@.take(k as int));
                    assert(yb@.take(k + 1).drop_last() =~= yb@.take(k as int));
                    lemma_tp_fn_count_bounds(
                        xb@.take(k as int),
                        yb@.take(k as int),
                        th,
                        thy,
                        exclude_perfect,
                    );
                }
                let counted_k = !exclude_perfect || yb[k] != SCALE;
                if xb[k] >= th && counted_k {
                    if yb[k] >= thy {
                        tp += 1;
                    } else {
                        fnc += 1;
                    }
                }
            }
            proof {
                assert(xb@.take(n as int) =~= xb@);
                assert(yb@.take(n as int) =~= yb@);
                lemma_tp_fn_count_bounds(xb@, yb@, th, thy, exclude_perfect);
                lemma_frac_unit(tp as int, n as int);
                lemma_frac_unit(fnc as int, n as int);
            }
            let tp_val: i64 = (tp as i64) * SCALE / (n as i64);
            let fn_val: i64 = (fnc as i64) * SCALE / (n as i64);
            prec.push(tp_val);
            fnr.push(fn_val);
        }
    }
    (prec, fnr)
}

} // verus!
