use vstd::prelude::*;

use crate::aggregate::{aggregate_curves, aggregate_spec, parse_mode, parse_mode_spec, wf_curves,
    AggMode};
use crate::confusion::{compute_precision_fnr, fnr_at, precision_at};
use crate::errors::EngineError;
use crate::interpolate::{interp_spec, linear_interpolate, strictly_increasing};
use crate::sampling::{bootstrap_sample, resample_spec};
use crate::units::{is_unit, unit_seq, MAX_CURVES, MAX_SAMPLES, SCALE};

verus! {

// The robust-point policy of this engine, chosen once and documented here:
// the aggregated FNR curve is read in reverse grid order, where it is
// expected to ascend; when it does not already attain FNR = 0 a boundary
// point at FNR = 0 is prepended, whose threshold companion is the largest
// grid value and whose precision companion is 1.0; queries outside the
// covered range clamp to the nearest endpoint; a domain that is not strictly
// increasing is a recoverable `InterpolationFailure`, recorded as a missing
// point.

/// Whether the reversed FNR curve needs the FNR = 0 boundary point.
pub open spec fn needs_boundary(d: Seq<i64>) -> bool {
    d.len() > 0 && d[0] > 0
}

/// The interpolation domain built from an aggregated FNR curve.
pub open spec fn domain_of(fnr: Seq<i64>) -> Seq<i64> {
    let d = fnr.reverse();
    if needs_boundary(d) {
        seq![0i64] + d
    } else {
        d
    }
}

/// A companion curve read in the same reverse order, with its boundary
/// value prepended whenever the domain got one.
pub open spec fn companion_of(comp: Seq<i64>, fnr: Seq<i64>, c0: i64) -> Seq<i64> {
    let c = comp.reverse();
    if needs_boundary(fnr.reverse()) {
        seq![c0] + c
    } else {
        c
    }
}

/// One robust curve point: the interpolated threshold and the precision at
/// the target FNR, or the recoverable failure of an unusable domain.
pub open spec fn robust_point_spec(
    fnr: Seq<i64>,
    prec: Seq<i64>,
    grid: Seq<i64>,
    target: i64,
) -> Result<(i64, i64), EngineError> {
    let d = domain_of(fnr);
    if d.len() < 2 || !strictly_increasing(d) {
        Err(EngineError::InterpolationFailure)
    } else {
        Ok(
            (
                interp_spec(d, companion_of(grid, fnr, grid[grid.len() - 1]), target),
                interp_spec(d, companion_of(prec, fnr, SCALE), target),
            ),
        )
    }
}

proof fn lemma_chain_increasing(s: Seq<i64>, a: int, b: int)
    requires
        forall|i: int| 0 <= i < s.len() - 1 ==> #[trigger] s[i] < s[i + 1],
        0 <= a < b < s.len(),
    ensures
        s[a] < s[b],
    decreases b - a,
{
    if a + 1 < b {
        lemma_chain_increasing(s, a, b - 1);
    }
}

proof fn lemma_adjacent_implies_increasing(s: Seq<i64>)
    requires
        forall|i: int| 0 <= i < s.len() - 1 ==> #[trigger] s[i] < s[i + 1],
    ensures
        strictly_increasing(s),
{
    assert forall|a: int, b: int| 0 <= a < b < s.len() implies s[a] < s[b] by {
        lemma_chain_increasing(s, a, b);
    }
}

/// Maps an aggregated FNR curve and precision curve, both aligned to the
/// quantile grid, to the (threshold, precision) estimate at the target FNR,
/// under the policy documented above.
pub fn robust_point(fnr: &Vec<i64>, prec: &Vec<i64>, grid: &Vec<i64>, target: i64) -> (r: Result<
    (i64, i64),
    EngineError,
>)
    requires
        fnr@.len() == prec@.len(),
        fnr@.len() == grid@.len(),
        unit_seq(fnr@),
        unit_seq(prec@),
        unit_seq(grid@),
    ensures
        r == robust_point_spec(fnr@, prec@, grid@, target),
        match r {
            Ok(pt) => is_unit(pt.0) && is_unit(pt.1),
            Err(e) => e == EngineError::InterpolationFailure,
        },
{
    let m = fnr.len();
    let mut d: Vec<i64> = Vec::new();
    let mut gq: Vec<i64> = Vec::new();
    let mut pq: Vec<i64> = Vec::new();
    let mut k = m;
    while k > 0
        invariant
            k <= m,
            m == fnr@.len(),
            m == prec@.len(),
            m == grid@.len(),
            d@.len() == m - k,
            gq@.len() == m - k,
            pq@.len() == m - k,
            forall|i: int| 0 <= i < m - k ==> #[trigger] d@[i] == fnr@[m - 1 - i],
            forall|i: int| 0 <= i < m - k ==> #[trigger] gq@[i] == grid@[m - 1 - i],
            forall|i: int| 0 <= i < m - k ==> #[trigger] pq@[i] == prec@[m - 1 - i],
        decreases k,
    {
        k -= 1;
        d.push(fnr[k]);
        gq.push(grid[k]);
        pq.push(prec[k]);
    }
    proof {
        assert(d@ =~= fnr@.reverse());
        assert(gq@ =~= grid@.reverse());
        assert(pq@ =~= prec@.reverse());
    }
    if m > 0 && d[0] > 0 {
        let g0 = gq[0];
        d.insert(0, 0);
        gq.insert(0, g0);
        pq.insert(0, SCALE);
        proof {
            assert(d@ =~= seq![0i64] + fnr@.reverse());
            assert(gq@ =~= seq![grid@[grid@.len() - 1]] + grid@.reverse());
            assert(pq@ =~= seq![SCALE] + prec@.reverse());
        }
    }
    proof {
        assert(d@ == domain_of(fnr@));
        if m > 0 {
            assert(gq@ == companion_of(grid@, fnr@, grid@[grid@.len() - 1]));
        }
        assert(pq@ == companion_of(prec@, fnr@, SCALE));
        assert(unit_seq(d@));
        assert(unit_seq(gq@));
        assert(unit_seq(pq@));
    }
    let dd = d.len();
    if dd < 2 {
        return Err(EngineError::InterpolationFailure);
    }
    for i in 0..dd - 1
        invariant
            dd == d@.len(),
            dd >= 2,
            d@ == domain_of(fnr@),
            forall|j: int| 0 <= j < i ==> #[trigger] d@[j] < d@[j + 1],
    {
        if d[i] >= d[i + 1] {
            proof {
                if strictly_increasing(d@) {
                    assert(d@[i as int] < d@[i + 1]);
                }
            }
            return Err(EngineError::InterpolationFailure);
        }
    }
    proof {
        lemma_adjacent_implies_increasing(d@);
    }
    let th_val = linear_interpolate(&d, &gq, target);
    let pr_val = linear_interpolate(&d, &pq, target);
    Ok((th_val, pr_val))
}

/// The confidence rank used on the FNR curve: the 0.95 quantile by default,
/// switched to 0.05 for inverted-scale metrics — a flag the orchestrator
/// passes explicitly.
pub open spec fn conf_of(inverted_scale: bool) -> i64 {
    if inverted_scale {
        50_000i64
    } else {
        950_000i64
    }
}

/// The precision curve one bootstrap replicate contributes, aligned to the
/// quantile grid.
pub open spec fn prec_curve_of(
    x: Seq<i64>,
    y: Seq<i64>,
    rep: u64,
    thy: i64,
    grid: Seq<i64>,
    excl: bool,
) -> Seq<i64> {
    Seq::new(
        grid.len(),
        |i: int|
            precision_at(
                resample_spec(x, x.len(), rep),
                resample_spec(y, y.len(), rep),
                grid[i],
                thy,
                excl,
            ),
    )
}

/// The FNR curve one bootstrap replicate contributes.
pub open spec fn fnr_curve_of(
    x: Seq<i64>,
    y: Seq<i64>,
    rep: u64,
    thy: i64,
    grid: Seq<i64>,
    excl: bool,
) -> Seq<i64> {
    Seq::new(
        grid.len(),
        |i: int|
            fnr_at(
                resample_spec(x, x.len(), rep),
                resample_spec(y, y.len(), rep),
                grid[i],
                thy,
                excl,
            ),
    )
}

pub open spec fn prec_curves_of(
    x: Seq<i64>,
    y: Seq<i64>,
    nb: int,
    thy: i64,
    grid: Seq<i64>,
    excl: bool,
) -> Seq<Seq<i64>> {
    Seq::new(nb as nat, |rep: int| prec_curve_of(x, y, rep as u64, thy, grid, excl))
}

pub open spec fn fnr_curves_of(
    x: Seq<i64>,
    y: Seq<i64>,
    nb: int,
    thy: i64,
    grid: Seq<i64>,
    excl: bool,
) -> Seq<Seq<i64>> {
    Seq::new(nb as nat, |rep: int| fnr_curve_of(x, y, rep as u64, thy, grid, excl))
}

/// The full chain for one quality threshold: replicate curves, aggregated
/// with the mode-dependent confidence ranks, then the robust point at the
/// target FNR.
pub open spec fn robust_entry_spec(
    x: Seq<i64>,
    y: Seq<i64>,
    grid: Seq<i64>,
    thy: i64,
    nb: int,
    mode: AggMode,
    inverted_scale: bool,
    excl: bool,
    target: i64,
) -> Result<(i64, i64), EngineError> {
    let conf = conf_of(inverted_scale);
    let pa = aggregate_spec(prec_curves_of(x, y, nb, thy, grid, excl), mode, (SCALE - conf) as i64);
    let fa = aggregate_spec(fnr_curves_of(x, y, nb, thy, grid, excl), mode, conf);
    robust_point_spec(fa, pa, grid, target)
}

/// Whether a recorded curve point matches the outcome of the per-threshold
/// chain: a successful point is stored, a failed one is a missing value.
pub open spec fn point_recorded(
    entry: Result<(i64, i64), EngineError>,
    th: Option<i64>,
    pv: Option<i64>,
) -> bool {
    match entry {
        Ok(pt) => th == Some(pt.0) && pv == Some(pt.1),
        Err(_) => th is None && pv is None,
    }
}

/// Whether an emitted precision curve is degenerate: constant at 1.0 across
/// the whole quality grid — a likely upstream data problem that must be
/// surfaced to an operator, never silently accepted.
pub open spec fn degenerate_spec(s: Seq<Option<i64>>) -> bool {
    forall|i: int| 0 <= i < s.len() ==> s[i] == Some(SCALE)
}

pub fn is_degenerate_curve(s: &Vec<Option<i64>>) -> (r: bool)
    ensures
        r == degenerate_spec(s@),
{
    for i in 0..s.len()
        invariant
            forall|j: int| 0 <= j < i ==> s@[j] == Some(SCALE),
    {
        match s[i] {
            Some(v) => {
                if v != SCALE {
                    return false;
                }
            },
            None => {
                return false;
            },
        }
    }
    true
}

/// The core engine entry for one (combination, target FNR) job with an
/// already-validated mode: for every quality threshold, `n_bootstrap`
/// seeded resamples are evaluated over the quantile grid, aggregated, and
/// interpolated at the target FNR. Returns the precision values and the
/// interpolated thresholds, aligned to the quality grid; a point whose
/// domain is unusable is recorded as `None`, never aborting the rest.
pub fn robust_curve_with_mode(
    x: &Vec<i64>,
    y: &Vec<i64>,
    quality_thresholds: &Vec<i64>,
    quantiles: &Vec<i64>,
    n_bootstrap: usize,
    mode: AggMode,
    inverted_scale: bool,
    exclude_perfect: bool,
    target_fnr: i64,
) -> (r: Result<(Vec<Option<i64>>, Vec<Option<i64>>), EngineError>)
    requires
        x@.len() == y@.len(),
        x@.len() <= MAX_SAMPLES,
        1 <= n_bootstrap <= MAX_CURVES,
        unit_seq(quantiles@),
    ensures
        match r {
            Ok(pair) => {
                &&& x@.len() > 0
                &&& pair.0@.len() == quality_thresholds@.len()
                &&& pair.1@.len() == quality_thresholds@.len()
                &&& forall|t: int|
                    0 <= t < quality_thresholds@.len() ==> point_recorded(
                        robust_entry_spec(
                            x@,
                            y@,
                            quantiles@,
                            quality_thresholds@[t],
                            n_bootstrap as int,
                            mode,
                            inverted_scale,
                            exclude_perfect,
                            target_fnr,
                        ),
                        pair.1@[t],
                        pair.0@[t],
                    )
            },
            Err(e) => e == EngineError::EmptySample && x@.len() == 0,
        },
{
    if x.len() == 0 {
        return Err(EngineError::EmptySample);
    }
    let conf: i64 = if inverted_scale {
        50_000
    } else {
        950_000
    };
    let nq = quality_thresholds.len();
    let m = quantiles.len();
    let mut all_prec: Vec<Option<i64>> = Vec::new();
    let mut all_th: Vec<Option<i64>> = Vec::new();
    for t in 0..nq
        invariant
            nq == quality_thresholds@.len(),
            m == quantiles@.len(),
            x@.len() == y@.len(),
            0 < x@.len() <= MAX_SAMPLES,
            1 <= n_bootstrap <= MAX_CURVES,
            unit_seq(quantiles@),
            conf == conf_of(inverted_scale),
            all_prec@.len() == t,
            all_th@.len() == t,
            forall|u: int|
                0 <= u < t ==> point_recorded(
                    robust_entry_spec(
                        x@,
                        y@,
                        quantiles@,
                        quality_thresholds@[u],
                        n_bootstrap as int,
                        mode,
                        inverted_scale,
                        exclude_perfect,
                        target_fnr,
                    ),
                    all_th@[u],
                    all_prec@[u],
                ),
    {
        let thy = quality_thresholds[t];
        let ghost gx = x@;
        let ghost gy = y@;
        let ghost ggrid = quantiles@;
        let mut prec_mat: Vec<Vec<i64>> = Vec::new();
        let mut fnr_mat: Vec<Vec<i64>> = Vec::new();
        for rep in 0..n_bootstrap
            invariant
                gx == x@,
                gy == y@,
                ggrid == quantiles@,
                m == quantiles@.len(),
                x@.len() == y@.len(),
                0 < x@.len() <= MAX_SAMPLES,
                1 <= n_bootstrap <= MAX_CURVES,
                unit_seq(quantiles@),
                prec_mat@.len() == rep,
                fnr_mat@.len() == rep,
                forall|k: int|
                    0 <= k < rep ==> (#[trigger] prec_mat@[k])@ == prec_curve_of(
                        gx,
                        gy,
                        k as u64,
                        thy,
                        ggrid,
                        exclude_perfect,
                    ),
                forall|k: int|
                    0 <= k < rep ==> (#[trigger] fnr_mat@[k])@ == fnr_curve_of(
                        gx,
                        gy,
                        k as u64,
                        thy,
                        ggrid,
                        exclude_perfect,
                    ),
                forall|k: int|
                    0 <= k < rep ==> (#[trigger] prec_mat@[k])@.len() == m && unit_seq(
                        prec_mat@[k]@,
                    ),
                forall|k: int|
                    0 <= k < rep ==> (#[trigger] fnr_mat@[k])@.len() == m && unit_seq(
                        fnr_mat@[k]@,
                    ),
        {
            let pair = match bootstrap_sample(x, y, rep as u64) {
                Ok(p) => p,
                Err(_) => {
                    proof {
                        assert(false);
                    }
                    return Err(EngineError::EmptySample);
                },
            };
            let (xb, yb) = pair;
            let (pc, fc) = compute_precision_fnr(&xb, &yb, thy, quantiles, exclude_perfect);
            proof {
                assert(pc@ =~= prec_curve_of(gx, gy, rep as u64, thy, ggrid, exclude_perfect));
                assert(fc@ =~= fnr_curve_of(gx, gy, rep as u64, thy, ggrid, exclude_perfect));
            }
            prec_mat.push(pc);
            fnr_mat.push(fc);
        }
        proof {
            let ghost pmat = prec_curves_of(gx, gy, n_bootstrap as int, thy, ggrid, exclude_perfect);
            let ghost fmat = fnr_curves_of(gx, gy, n_bootstrap as int, thy, ggrid, exclude_perfect);
            assert forall|k: int| 0 <= k < n_bootstrap implies #[trigger] prec_mat.deep_view()[k]
                == pmat[k] by {
                assert(prec_mat@[k].deep_view() =~= prec_mat@[k]@);
            }
            assert forall|k: int| 0 <= k < n_bootstrap implies #[trigger] fnr_mat.deep_view()[k]
                == fmat[k] by {
                assert(fnr_mat@[k].deep_view() =~= fnr_mat@[k]@);
            }
            assert(prec_mat.deep_view() =~= pmat);
            assert(fnr_mat.deep_view() =~= fmat);
            assert(wf_curves(prec_mat.deep_view()));
            assert(wf_curves(fnr_mat.deep_view()));
        }
        let pa = aggregate_curves(&prec_mat, mode, SCALE - conf);
        let fa = aggregate_curves(&fnr_mat, mode, conf);
        proof {
            assert(pa@.len() == m);
            assert(fa@.len() == m);
        }
        match robust_point(&fa, &pa, quantiles, target_fnr) {
            Ok(pt) => {
                all_th.push(Some(pt.0));
                all_prec.push(Some(pt.1));
            },
            Err(_) => {
                all_th.push(None);
                all_prec.push(None);
            },
        }
    }
    Ok((all_prec, all_th))
}

/// The engine entry as configuration names it (spec section on external
/// interfaces): the aggregation mode arrives as a string and is validated
/// before any work; an unknown mode is the recoverable configuration error.
pub fn robust_curve(
    x: &Vec<i64>,
    y: &Vec<i64>,
    quality_thresholds: &Vec<i64>,
    quantiles: &Vec<i64>,
    n_bootstrap: usize,
    mode: &String,
    inverted_scale: bool,
    exclude_perfect: bool,
    target_fnr: i64,
) -> (r: Result<(Vec<Option<i64>>, Vec<Option<i64>>), EngineError>)
    requires
        x@.len() == y@.len(),
        x@.len() <= MAX_SAMPLES,
        1 <= n_bootstrap <= MAX_CURVES,
        unit_seq(quantiles@),
    ensures
        match r {
            Ok(pair) => {
                &&& parse_mode_spec(mode@) is Ok
                &&& x@.len() > 0
                &&& pair.0@.len() == quality_thresholds@.len()
                &&& pair.1@.len() == quality_thresholds@.len()
                &&& forall|t: int|
                    0 <= t < quality_thresholds@.len() ==> point_recorded(
                        robust_entry_spec(
                            x@,
                            y@,
                            quantiles@,
                            quality_thresholds@[t],
                            n_bootstrap as int,
                            parse_mode_spec(mode@).unwrap(),
                            inverted_scale,
                            exclude_perfect,
                            target_fnr,
                        ),
                        pair.1@[t],
                        pair.0@[t],
                    )
            },
            Err(e) => {
                ||| e == EngineError::UnknownAggregationMode && parse_mode_spec(mode@) is Err
                ||| e == EngineError::EmptySample && parse_mode_spec(mode@) is Ok && x@.len() == 0
            },
        },
{
    let mo = match parse_mode(mode) {
        Ok(mo) => mo,
        Err(e) => {
            return Err(e);
        },
    };
    robust_curve_with_mode(
        x,
        y,
        quality_thresholds,
        quantiles,
        n_bootstrap,
        mo,
        inverted_scale,
        exclude_perfect,
        target_fnr,
    )
}

/// One (combination, target FNR) job of a batch: the two resolved columns —
/// absent when the source table lacks the series — and the job's own
/// parameters.
pub struct BatchJob {
    pub x: Option<Vec<i64>>,
    pub y: Option<Vec<i64>>,
    pub target_fnr: i64,
    pub inverted_scale: bool,
}

/// The terminal state of one batch job: its robust curve, or the recorded
/// reason it was passed over. A skipped job never aborts the batch.
#[derive(Debug)]
pub enum JobOutcome {
    Emitted { precision: Vec<Option<i64>>, thresholds: Vec<Option<i64>>, degenerate: bool },
    Skipped(EngineError),
}

/// Whether both columns of a job are present and aligned within the machine
/// bound — what the loader owes the engine for every job it hands over.
pub open spec fn job_wf(j: BatchJob) -> bool {
    j.x is Some && j.y is Some ==> {
        &&& j.x.unwrap()@.len() == j.y.unwrap()@.len()
        &&& j.x.unwrap()@.len() <= MAX_SAMPLES
    }
}

/// What the outcome of one job must be: `Skipped(MissingColumn)` exactly
/// when a column is absent, `Skipped(EmptySample)` exactly when the columns
/// are empty, and otherwise the full robust curve with its degeneracy flag.
pub open spec fn outcome_ok(
    job: BatchJob,
    out: JobOutcome,
    quality_thresholds: Seq<i64>,
    grid: Seq<i64>,
    nb: int,
    mode: AggMode,
    excl: bool,
) -> bool {
    if job.x is None || job.y is None {
        out == JobOutcome::Skipped(EngineError::MissingColumn)
    } else if job.x.unwrap()@.len() == 0 {
        out == JobOutcome::Skipped(EngineError::EmptySample)
    } else {
        match out {
            JobOutcome::Emitted { precision, thresholds, degenerate } => {
                &&& precision@.len() == quality_thresholds.len()
                &&& thresholds@.len() == quality_thresholds.len()
                &&& degenerate == degenerate_spec(precision@)
                &&& forall|t: int|
                    0 <= t < quality_thresholds.len() ==> point_recorded(
                        robust_entry_spec(
                            job.x.unwrap()@,
                            job.y.unwrap()@,
                            grid,
                            quality_thresholds[t],
                            nb,
                            mode,
                            job.inverted_scale,
                            excl,
                            job.target_fnr,
                        ),
                        thresholds@[t],
                        precision@[t],
                    )
            },
            JobOutcome::Skipped(_) => false,
        }
    }
}

/// The orchestrator: validates the aggregation mode once, then drives every
/// job of the batch through the full sampling–counting–aggregation–
/// interpolation chain. One malformed job is recorded as skipped and never
/// aborts the others; only the configuration error stops the batch before
/// it starts.
pub fn run_batch(
    jobs: &Vec<BatchJob>,
    quality_thresholds: &Vec<i64>,
    quantiles: &Vec<i64>,
    n_bootstrap: usize,
    mode: &String,
    exclude_perfect: bool,
) -> (r: Result<Vec<JobOutcome>, EngineError>)
    requires
        forall|i: int| 0 <= i < jobs@.len() ==> job_wf(#[trigger] jobs@[i]),
        1 <= n_bootstrap <= MAX_CURVES,
        unit_seq(quantiles@),
    ensures
        match r {
            Ok(outs) => {
                &&& parse_mode_spec(mode@) is Ok
                &&& outs@.len() == jobs@.len()
                &&& forall|i: int|
                    0 <= i < jobs@.len() ==> outcome_ok(
                        #[trigger] jobs@[i],
                        outs@[i],
                        quality_thresholds@,
                        quantiles@,
                        n_bootstrap as int,
                        parse_mode_spec(mode@).unwrap(),
                        exclude_perfect,
                    )
            },
            Err(e) => {
                &&& e == EngineError::UnknownAggregationMode
                &&& parse_mode_spec(mode@) is Err
            },
        },
{
    let mo = match parse_mode(mode) {
        Ok(mo) => mo,
        Err(e) => {
            return Err(e);
        },
    };
    let mut outs: Vec<JobOutcome> = Vec::new();
    let n = jobs.len();
    for i in 0..n
        invariant
            n == jobs@.len(),
            forall|k: int| 0 <= k < jobs@.len() ==> job_wf(#[trigger] jobs@[k]),
            1 <= n_bootstrap <= MAX_CURVES,
            unit_seq(quantiles@),
            outs@.len() == i,
            forall|k: int|
                0 <= k < i ==> outcome_ok(
                    #[trigger] jobs@[k],
                    outs@[k],
                    quality_thresholds@,
                    quantiles@,
                    n_bootstrap as int,
                    mo,
                    exclude_perfect,
                ),
    {
        let job = &jobs[i];
        let out = match (&job.x, &job.y) {
            (Some(xv), Some(yv)) => {
                if xv.len() == 0 {
                    JobOutcome::Skipped(EngineError::EmptySample)
                } else {
                    match robust_curve_with_mode(
                        xv,
                        yv,
                        quality_thresholds,
                        quantiles,
                        n_bootstrap,
                        mo,
                        job.inverted_scale,
                        exclude_perfect,
                        job.target_fnr,
                    ) {
                        Ok(pair) => {
                            let (precision, thresholds) = pair;
                            let degenerate = is_degenerate_curve(&precision);
                            JobOutcome::Emitted { precision, thresholds, degenerate }
                        },
                        Err(e) => {
                            proof {
                                assert(false);
                            }
                            JobOutcome::Skipped(e)
                        },
                    }
                }
            },
            _ => JobOutcome::Skipped(EngineError::MissingColumn),
        };
        outs.push(out);
    }
    Ok(outs)
}

} // verus!
