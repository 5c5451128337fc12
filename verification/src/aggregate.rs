use vstd::prelude::*;
use vstd::relations::{sorted_by, total_ordering};
use vstd::seq_lib::group_to_multiset_ensures;
use vstd::seq_lib::lemma_sorted_unique;
use vstd::seq_lib::{to_multiset_build, to_multiset_insert};
use vstd::string::StringExecFns;

use crate::errors::EngineError;
use crate::units::{is_unit, unit_seq, MAX_CURVES, SCALE};

verus! {

/// The order in which curve values are ranked.
pub open spec fn value_leq() -> spec_fn(i64, i64) -> bool {
    |a: i64, b: i64| a <= b
}

pub proof fn lemma_value_leq_total()
    ensures
        total_ordering(value_leq()),
{
}

/// The values that the replicate curves hold at grid position `i`, one per
/// curve, in curve order.
pub open spec fn column_of(curves: Seq<Seq<i64>>, i: int) -> Seq<i64> {
    Seq::new(curves.len(), |k: int| curves[k][i])
}

pub open spec fn seq_sum(s: Seq<i64>) -> int
    decreases s.len(),
{
    if s.len() == 0 {
        0
    } else {
        seq_sum(s.drop_last()) + s.last()
    }
}

/// The elementwise arithmetic mean across replicates at grid position `i`.
pub open spec fn mean_at(curves: Seq<Seq<i64>>, i: int) -> i64 {
    (seq_sum(column_of(curves, i)) / curves.len() as int) as i64
}

pub open spec fn clamp_unit(p: i64) -> i64 {
    if p < 0 {
        0
    } else if p > SCALE {
        SCALE
    } else {
        p
    }
}

/// The order statistic with linear interpolation of a non-empty value
/// collection: sort the values, take the rank `(len-1) * clamp(p, 0, 1)`,
/// and blend the straddling order statistics by the fractional part of the
/// rank.
pub open spec fn percentile_of(col: Seq<i64>, p: i64) -> i64 {
    let s = col.sort_by(value_leq());
    let hn = (col.len() - 1) * clamp_unit(p) as int;
    let i0 = hn / SCALE as int;
    let frac = hn % SCALE as int;
    if frac == 0 {
        s[i0]
    } else {
        (((SCALE - frac) * s[i0] + frac * s[i0 + 1]) / SCALE as int) as i64
    }
}

/// The elementwise percentile across replicates at grid position `i`.
pub open spec fn percentile_at(curves: Seq<Seq<i64>>, i: int, p: i64) -> i64 {
    percentile_of(column_of(curves, i), p)
}

/// The two aggregation modes of the engine.
#[derive(Clone, Copy, Debug, PartialEq, Eq, Structural)]
pub enum AggMode {
    Mean,
    Percentile,
}

/// How an aggregation mode string is read: exactly `"mean"` or
/// `"percentile"`; anything else is a configuration error.
pub open spec fn parse_mode_spec(s: Seq<char>) -> Result<AggMode, EngineError> {
    if s == "mean"@ {
        Ok(AggMode::Mean)
    } else if s == "percentile"@ {
        Ok(AggMode::Percentile)
    } else {
        Err(EngineError::UnknownAggregationMode)
    }
}

/// Reads an aggregation mode string, returning the recoverable
/// `UnknownAggregationMode` error for any unrecognised mode. Meant to run
/// once, before any fan-out over combinations.
pub fn parse_mode(mode: &String) -> (r: Result<AggMode, EngineError>)
    ensures
        r == parse_mode_spec(mode@),
{
    if *mode == String::from_str("mean") {
        Ok(AggMode::Mean)
    } else if *mode == String::from_str("percentile") {
        Ok(AggMode::Percentile)
    } else {
        Err(EngineError::UnknownAggregationMode)
    }
}

/// Well-formed replicate curve collection: non-empty, within the machine
/// bound, every curve aligned to the same grid, every value in the unit
/// interval.
pub open spec fn wf_curves(curves: Seq<Seq<i64>>) -> bool {
    &&& 1 <= curves.len() <= MAX_CURVES
    &&& forall|k: int| 0 <= k < curves.len() ==> (#[trigger] curves[k]).len() == curves[0].len()
    &&& forall|k: int| 0 <= k < curves.len() ==> unit_seq(#[trigger] curves[k])
}

/// The aggregate of a well-formed curve collection: one value per grid
/// position, by the given mode.
pub open spec fn aggregate_spec(curves: Seq<Seq<i64>>, mode: AggMode, p: i64) -> Seq<i64> {
    Seq::new(
        curves[0].len(),
        |i: int|
            if mode == AggMode::Mean {
                mean_at(curves, i)
            } else {
                percentile_at(curves, i, p)
            },
    )
}

proof fn lemma_seq_sum_bounds(s: Seq<i64>)
    requires
        unit_seq(s),
    ensures
        0 <= seq_sum(s) <= s.len() * SCALE,
    decreases s.len(),
{
    if s.len() > 0 {
        assert(unit_seq(s.drop_last())) by {
            assert(forall|i: int| 0 <= i < s.len() - 1 ==> s.drop_last()[i] == s[i]);
        }
        lemma_seq_sum_bounds(s.drop_last());
        assert(is_unit(s.last()));
    }
}

proof fn lemma_mean_unit(s: Seq<i64>)
    requires
        unit_seq(s),
        s.len() >= 1,
    ensures
        0 <= seq_sum(s) / s.len() as int <= SCALE,
{
    let n = s.len() as int;
    lemma_seq_sum_bounds(s);
    vstd::arithmetic::div_mod::lemma_div_pos_is_pos(seq_sum(s), n);
    vstd::arithmetic::div_mod::lemma_div_is_ordered(seq_sum(s), n * SCALE, n);
    vstd::arithmetic::div_mod::lemma_div_multiples_vanish(SCALE as int, n);
}

/// Sorts a value collection ascending; the result is exactly the
/// specification-level sort of its view.
pub fn sort_values(v: &Vec<i64>) -> (r: Vec<i64>)
    ensures
        r@ == v@.sort_by(value_leq()),
        r@.len() == v@.len(),
        sorted_by(r@, value_leq()),
        r@.to_multiset() == v@.to_multiset(),
{
    broadcast use group_to_multiset_ensures;

    let mut r: Vec<i64> = Vec::new();
    for i in 0..v.len()
        invariant
            sorted_by(r@, value_leq()),
            r@.len() == i,
            r@.to_multiset() == v@.take(i as int).to_multiset(),
    {
        let x = v[i];
        let ghost prev = r@;
        let mut j = r.len();
        while j > 0 && r[j - 1] > x
            invariant
                0 <= j <= r@.len(),
                r@ == prev,
                forall|k: int| j <= k < r@.len() ==> x < #[trigger] r@[k],
            decreases j,
        {
            j -= 1;
        }
        proof {
            assert(j == 0 || !(prev[j - 1] > x));
        }
        r.insert(j, x);
        proof {
            prev.insert_ensures(j as int, x);
            assert forall|a: int, b: int| 0 <= a < b < r@.len() implies value_leq()(
                r@[a],
                r@[b],
            ) by {
                if b < j {
                    assert(r@[a] == prev[a] && r@[b] == prev[b]);
                    assert(value_leq()(prev[a], prev[b]));
                } else if b == j {
                    assert(a < j && j > 0);
                    assert(r@[a] == prev[a] && r@[b] == x);
                    if a < j - 1 {
                        assert(value_leq()(prev[a], prev[j - 1]));
                    }
                    assert(prev[j - 1] <= x);
                } else {
                    assert(r@[b] == prev[b - 1]);
                    assert(x < prev[b - 1]);
                    if a < j {
                        assert(r@[a] == prev[a]);
                        if a < j - 1 {
                            assert(value_leq()(prev[a], prev[j - 1]));
                        }
                        assert(prev[j - 1] <= x);
                    } else if a == j {
                        assert(r@[a] == x);
                    } else {
                        assert(r@[a] == prev[a - 1]);
                        assert(value_leq()(prev[a - 1], prev[b - 1]));
                    }
                }
            }
            assert(sorted_by(r@, value_leq()));
            to_multiset_insert(prev, j as int, x);
            assert(v@.take(i + 1) =~= v@.take(i as int).push(x));
            to_multiset_build(v@.take(i as int), x);
            assert(v@.take(i as int).push(x).to_multiset() =~= v@.take(
                i as int,
            ).to_multiset().insert(x));
        }
    }
    proof {
        assert(v@.take(v@.len() as int) =~= v@);
        v@.lemma_sort_by_ensures(value_leq());
        lemma_value_leq_total();
        lemma_sorted_unique(r@, v@.sort_by(value_leq()), value_leq());
    }
    r
}

/// Every element of the sorted view of a unit sequence is itself a unit
/// value.
proof fn lemma_sorted_unit(col: Seq<i64>)
    requires
        unit_seq(col),
    ensures
        unit_seq(col.sort_by(value_leq())),
        col.sort_by(value_leq()).len() == col.len(),
{
    col.lemma_sort_by_ensures(value_leq());
    broadcast use group_to_multiset_ensures;

    let s = col.sort_by(value_leq());
    assert(s.len() == s.to_multiset().len());
    assert(col.len() == col.to_multiset().len());
    assert forall|i: int| 0 <= i < s.len() implies is_unit(#[trigger] s[i]) by {
        assert(s.contains(s[i]));
        assert(col.contains(s[i]));
    }
}

/// The percentile of a non-empty unit collection is a unit value.
proof fn lemma_percentile_unit(col: Seq<i64>, p: i64)
    requires
        unit_seq(col),
        1 <= col.len() <= MAX_CURVES,
    ensures
        is_unit(percentile_of(col, p)),
        ({
            let s = col.sort_by(value_leq());
            let hn = (col.len() - 1) * clamp_unit(p) as int;
            let i0 = hn / SCALE as int;
            let frac = hn % SCALE as int;
            &&& 0 <= hn <= (col.len() - 1) * SCALE
            &&& 0 <= i0 < col.len()
            &&& 0 <= frac < SCALE
            &&& (frac > 0 ==> {
                &&& i0 + 1 < col.len()
                &&& 0 <= (SCALE - frac) * s[i0] <= SCALE * SCALE
                &&& 0 <= frac * s[i0 + 1] <= SCALE * SCALE
                &&& 0 <= (SCALE - frac) * s[i0] + frac * s[i0 + 1] <= SCALE * SCALE
            })
        }),
{
    lemma_sorted_unit(col);
    let s = col.sort_by(value_leq());
    let m = col.len() as int;
    let pc = clamp_unit(p) as int;
    let hn = (m - 1) * pc;
    vstd::arithmetic::mul::lemma_mul_nonnegative(m - 1, pc);
    vstd::arithmetic::mul::lemma_mul_inequality(pc, SCALE as int, m - 1);
    assert(hn <= (m - 1) * SCALE) by {
        vstd::arithmetic::mul::lemma_mul_is_commutative(m - 1, pc);
        vstd::arithmetic::mul::lemma_mul_is_commutative(m - 1, SCALE as int);
    }
    let i0 = hn / SCALE as int;
    let frac = hn % SCALE as int;
    vstd::arithmetic::div_mod::lemma_div_pos_is_pos(hn, SCALE as int);
    vstd::arithmetic::div_mod::lemma_div_is_ordered(hn, (m - 1) * SCALE, SCALE as int);
    assert((m - 1) * SCALE / (SCALE as int) == m - 1) by {
        vstd::arithmetic::div_mod::lemma_div_multiples_vanish(m - 1, SCALE as int);
        vstd::arithmetic::mul::lemma_mul_is_commutative(m - 1, SCALE as int);
    }
    vstd::arithmetic::div_mod::lemma_mod_division_less_than_divisor(hn, SCALE as int);
    vstd::arithmetic::div_mod::lemma_fundamental_div_mod(hn, SCALE as int);
    if frac > 0 {
        assert(i0 * SCALE < hn);
        assert(i0 < m - 1) by {
            if i0 >= m - 1 {
                vstd::arithmetic::mul::lemma_mul_inequality(m - 1, i0, SCALE as int);
            }
        }
    }
    if frac == 0 {
        assert(is_unit(s[i0]));
    } else {
        let a = s[i0] as int;
        let b = s[i0 + 1] as int;
        assert(0 <= (SCALE - frac) * a <= SCALE * SCALE) by {
            vstd::arithmetic::mul::lemma_mul_nonnegative(SCALE - frac, a);
            vstd::arithmetic::mul::lemma_mul_inequality(a, SCALE as int, SCALE - frac);
            vstd::arithmetic::mul::lemma_mul_inequality(SCALE - frac, SCALE as int, SCALE as int);
            vstd::arithmetic::mul::lemma_mul_is_commutative(SCALE - frac, a);
            vstd::arithmetic::mul::lemma_mul_is_commutative(SCALE as int, SCALE - frac);
        }
        assert(0 <= frac * b <= SCALE * SCALE) by {
            vstd::arithmetic::mul::lemma_mul_nonnegative(frac, b);
            vstd::arithmetic::mul::lemma_mul_inequality(b, SCALE as int, frac);
            vstd::arithmetic::mul::lemma_mul_inequality(frac, SCALE as int, SCALE as int);
            vstd::arithmetic::mul::lemma_mul_is_commutative(frac, b);
            vstd::arithmetic::mul::lemma_mul_is_commutative(SCALE as int, frac);
        }
        let blend = (SCALE - frac) * a + frac * b;
        assert(blend <= SCALE * SCALE) by {
            vstd::arithmetic::mul::lemma_mul_inequality(a, SCALE as int, SCALE - frac);
            vstd::arithmetic::mul::lemma_mul_inequality(b, SCALE as int, frac);
            vstd::arithmetic::mul::lemma_mul_is_commutative(SCALE - frac, a);
            vstd::arithmetic::mul::lemma_mul_is_commutative(frac, b);
            vstd::arithmetic::mul::lemma_mul_is_commutative(SCALE as int, SCALE - frac);
            vstd::arithmetic::mul::lemma_mul_is_commutative(SCALE as int, frac);
            vstd::arithmetic::mul::lemma_mul_is_distributive_add_other_way(
                SCALE as int,
                SCALE - frac,
                frac,
            );
        }
        vstd::arithmetic::div_mod::lemma_div_pos_is_pos(blend, SCALE as int);
        vstd::arithmetic::div_mod::lemma_div_is_ordered(blend, SCALE * SCALE, SCALE as int);
        vstd::arithmetic::div_mod::lemma_div_multiples_vanish(SCALE as int, SCALE as int);
    }
}

/// The aggregate of well-formed replicate curves under an already-parsed
/// mode: at each grid position the elementwise mean, or the elementwise
/// order statistic with linear interpolation at rank fraction `p`.
pub fn aggregate_curves(curves: &Vec<Vec<i64>>, mode: AggMode, p: i64) -> (r: Vec<i64>)
    requires
        wf_curves(curves.deep_view()),
    ensures
        r@ == aggregate_spec(curves.deep_view(), mode, p),
        r@.len() == curves.deep_view()[0].len(),
        unit_seq(r@),
{
    let ghost cs = curves.deep_view();
    proof {
        assert(forall|k: int| 0 <= k < curves@.len() ==> cs[k] == #[trigger] curves@[k]@);
    }
    let n = curves.len();
    let m = curves[0].len();
    let mut out: Vec<i64> = Vec::new();
    for i in 0..m
        invariant
            cs == curves.deep_view(),
            wf_curves(cs),
            forall|k: int| 0 <= k < curves@.len() ==> cs[k] == #[trigger] curves@[k]@,
            n == curves@.len(),
            m == cs[0].len(),
            out@.len() == i,
            forall|j: int| 0 <= j < i ==> out@[j] == aggregate_spec(cs, mode, p)[j],
            unit_seq(out@),
    {
        // gather the column at position i
        let mut col: Vec<i64> = Vec::new();
        for k in 0..n
            invariant
                cs == curves.deep_view(),
                wf_curves(cs),
                forall|t: int| 0 <= t < curves@.len() ==> cs[t] == #[trigger] curves@[t]@,
                n == curves@.len(),
                m == cs[0].len(),
                i < m,
                col@ == column_of(cs, i as int).take(k as int),
        {
            col.push(curves[k][i]);
            proof {
                assert(col@ =~= column_of(cs, i as int).take(k + 1));
            }
        }
        proof {
            assert(column_of(cs, i as int).take(n as int) =~= column_of(cs, i as int));
            assert(unit_seq(col@));
        }
        let val: i64 = match mode {
            AggMode::Mean => {
                let mut acc: i64 = 0;
                for k in 0..n
                    invariant
                        col@ == column_of(cs, i as int),
                        col@.len() == n,
                        1 <= n <= MAX_CURVES,
                        unit_seq(col@),
                        acc == seq_sum(col@.take(k as int)),
                        0 <= acc <= k * SCALE,
                    decreases n - k,
                {
                    proof {
                        assert(col@.take(k + 1).drop_last() =~= col@.take(k as int));
                        assert(unit_seq(col@.take(k + 1))) by {
                            assert(forall|t: int|
                                0 <= t < k + 1 ==> col@.take(k + 1)[t] == col@[t]);
                        }
                        lemma_seq_sum_bounds(col@.take(k + 1));
                    }
                    acc = acc + col[k];
                }
                proof {
                    assert(col@.take(n as int) =~= col@);
                    lemma_mean_unit(col@);
                }
                acc / (n as i64)
            },
            AggMode::Percentile => {
                let s = sort_values(&col);
                proof {
                    lemma_percentile_unit(col@, p);
                }
                let pc: i64 = if p < 0 {
                    0
                } else if p > SCALE {
                    SCALE
                } else {
                    p
                };
                let hn: i64 = (n as i64 - 1) * pc;
                let i0 = (hn / SCALE) as usize;
                let frac = hn % SCALE;
                if frac == 0 {
                    s[i0]
                } else {
                    ((SCALE - frac) * s[i0] + frac * s[i0 + 1]) / SCALE
                }
            },
        };
        out.push(val);
        proof {
            assert(out@ =~= out@.take(i as int).push(val));
            assert(val == aggregate_spec(cs, mode, p)[i as int]);
        }
    }
    proof {
        assert(out@ =~= aggregate_spec(cs, mode, p));
    }
    out
}

/// The aggregator of the engine, as configuration names it: a mode string,
/// validated here, and the rank fraction for the percentile mode. The one
/// failure is the recoverable `UnknownAggregationMode`.
pub fn aggregate(curves: &Vec<Vec<i64>>, mode: &String, p: i64) -> (r: Result<
    Vec<i64>,
    EngineError,
>)
    requires
        wf_curves(curves.deep_view()),
    ensures
        match r {
            Ok(v) => {
                &&& parse_mode_spec(mode@) is Ok
                &&& v@ == aggregate_spec(curves.deep_view(), parse_mode_spec(mode@).unwrap(), p)
                &&& unit_seq(v@)
            },
            Err(e) => {
                &&& e == EngineError::UnknownAggregationMode
                &&& parse_mode_spec(mode@) == Err::<AggMode, EngineError>(e)
            },
        },
{
    match parse_mode(mode) {
        Ok(m) => Ok(aggregate_curves(curves, m, p)),
        Err(e) => Err(e),
    }
}

/// Law: aggregating a single curve with the mean mode returns that curve
/// unchanged, element for element.
pub proof fn lemma_mean_single_curve(curves: Seq<Seq<i64>>, p: i64)
    requires
        wf_curves(curves),
        curves.len() == 1,
    ensures
        aggregate_spec(curves, AggMode::Mean, p) =~= curves[0],
{
    assert forall|i: int| 0 <= i < curves[0].len() implies aggregate_spec(
        curves,
        AggMode::Mean,
        p,
    )[i] == curves[0][i] by {
        let col = column_of(curves, i);
        assert(col.len() == 1);
        assert(col.last() == curves[0][i]);
        assert(col.drop_last() =~= Seq::<i64>::empty());
        assert(seq_sum(col.drop_last()) == 0);
        assert(seq_sum(col) == seq_sum(col.drop_last()) + col.last());
        assert(seq_sum(col) / 1int == seq_sum(col));
    }
}

/// Law: the 0.5-percentile aggregate of an odd number of aligned replicate
/// curves is, at each grid position, the exact middle order statistic — the
/// median — of the values at that position.
pub proof fn lemma_percentile_median_odd(curves: Seq<Seq<i64>>, i: int)
    requires
        wf_curves(curves),
        curves.len() % 2 == 1,
        0 <= i < curves[0].len(),
    ensures
        percentile_at(curves, i, (SCALE / 2) as i64) == column_of(curves, i).sort_by(value_leq())[(
        curves.len() - 1) as int / 2],
{
    let col = column_of(curves, i);
    let m = col.len() as int;
    let h = (m - 1) / 2;
    assert(m - 1 == 2 * h);
    let pc = clamp_unit((SCALE / 2) as i64) as int;
    assert(pc == 500_000);
    let hn = (m - 1) * pc;
    assert(hn == h * SCALE as int) by {
        assert((2 * h) * 500_000 == h * 1_000_000) by (nonlinear_arith);
    }
    assert(hn / SCALE as int == h) by {
        vstd::arithmetic::div_mod::lemma_div_multiples_vanish(h, SCALE as int);
        vstd::arithmetic::mul::lemma_mul_is_commutative(h, SCALE as int);
    }
    assert(hn % SCALE as int == 0) by {
        vstd::arithmetic::div_mod::lemma_mod_multiples_basic(h, SCALE as int);
        vstd::arithmetic::mul::lemma_mul_is_commutative(h, SCALE as int);
    }
}

} // verus!
