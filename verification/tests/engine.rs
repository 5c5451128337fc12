use robust_curves::aggregate::{aggregate, aggregate_curves, parse_mode, sort_values, AggMode};
use robust_curves::confusion::compute_precision_fnr;
use robust_curves::errors::EngineError;
use robust_curves::interpolate::linear_interpolate;
use robust_curves::robust::{is_degenerate_curve, robust_curve, robust_point, run_batch, BatchJob,
    JobOutcome};
use robust_curves::sampling::bootstrap_sample;
use robust_curves::units::SCALE;

fn unit(x: f64) -> i64 {
    (x * SCALE as f64).round() as i64
}

#[test]
fn bootstrap_preserves_length_and_membership() {
    let x = vec![unit(0.1), unit(0.5), unit(0.9)];
    let y = vec![unit(0.2), unit(0.6), unit(0.95)];
    for rep in 0..20u64 {
        let (xb, yb) = bootstrap_sample(&x, &y, rep).unwrap();
        assert_eq!(xb.len(), x.len());
        assert_eq!(yb.len(), y.len());
        for v in &xb {
            assert!(x.contains(v));
        }
        for v in &yb {
            assert!(y.contains(v));
        }
    }
}

#[test]
fn bootstrap_draws_pair_at_same_index() {
    let x = vec![10, 20, 30, 40];
    let y = vec![11, 21, 31, 41];
    let (xb, yb) = bootstrap_sample(&x, &y, 7).unwrap();
    for k in 0..4 {
        assert_eq!(xb[k] + 1, yb[k]);
    }
}

#[test]
fn bootstrap_is_deterministic() {
    let x = vec![unit(0.1), unit(0.5), unit(0.9)];
    let y = vec![unit(0.2), unit(0.6), unit(0.95)];
    let a = bootstrap_sample(&x, &y, 3).unwrap();
    let b = bootstrap_sample(&x, &y, 3).unwrap();
    assert_eq!(a.0, b.0);
    assert_eq!(a.1, b.1);
}

#[test]
fn bootstrap_varies_with_the_replicate_index() {
    let x = vec![unit(0.1), unit(0.5), unit(0.9)];
    let y = vec![unit(0.2), unit(0.6), unit(0.95)];
    let mut distinct = std::collections::HashSet::new();
    for rep in 0..50u64 {
        let (xb, _) = bootstrap_sample(&x, &y, rep).unwrap();
        distinct.insert(xb);
    }
    // a generator that ignored its seed would collapse every replicate
    // into one resample
    assert!(distinct.len() > 1);
}

#[test]
fn bootstrap_rejects_empty_pair() {
    let x: Vec<i64> = Vec::new();
    let y: Vec<i64> = Vec::new();
    assert_eq!(bootstrap_sample(&x, &y, 0), Err(EngineError::EmptySample));
}

#[test]
fn confusion_counts_exact_values() {
    let xb = vec![unit(0.1), unit(0.5), unit(0.9)];
    let yb = vec![unit(0.2), unit(0.6), unit(0.95)];
    let quantiles = vec![0, unit(0.5), unit(0.9)];
    let (prec, fnr) = compute_precision_fnr(&xb, &yb, unit(0.5), &quantiles, false);
    assert_eq!(prec, vec![666_666, 666_666, 333_333]);
    assert_eq!(fnr, vec![333_333, 0, 0]);
}

#[test]
fn confusion_counts_monotone_in_threshold() {
    let xb = vec![unit(0.1), unit(0.5), unit(0.9)];
    let yb = vec![unit(0.2), unit(0.6), unit(0.95)];
    let quantiles = vec![0, unit(0.25), unit(0.5), unit(0.75), unit(0.9)];
    let (prec, fnr) = compute_precision_fnr(&xb, &yb, unit(0.5), &quantiles, false);
    for i in 1..quantiles.len() {
        assert!(prec[i] <= prec[i - 1]);
        assert!(fnr[i] <= fnr[i - 1]);
    }
}

#[test]
fn confusion_exclude_perfect_drops_exact_ones() {
    let xb = vec![unit(0.1), unit(0.5), unit(0.9)];
    let yb = vec![unit(0.2), unit(0.6), SCALE];
    let quantiles = vec![0];
    let (with_all, _) = compute_precision_fnr(&xb, &yb, unit(0.5), &quantiles, false);
    let (without_perfect, _) = compute_precision_fnr(&xb, &yb, unit(0.5), &quantiles, true);
    assert_eq!(with_all, vec![666_666]);
    assert_eq!(without_perfect, vec![333_333]);
}

#[test]
fn confusion_saturates_when_no_sample_is_quality_high() {
    let xb = vec![unit(0.3), unit(0.7)];
    let yb = vec![unit(0.1), unit(0.2)];
    let quantiles = vec![0, unit(0.5)];
    let (prec, fnr) = compute_precision_fnr(&xb, &yb, unit(0.9), &quantiles, false);
    assert_eq!(prec, vec![SCALE, SCALE]);
    assert_eq!(fnr, vec![SCALE, SCALE]);
}

#[test]
fn sort_values_orders_ascending() {
    let v = vec![5, 3, 9, 3, -1];
    assert_eq!(sort_values(&v), vec![-1, 3, 3, 5, 9]);
}

#[test]
fn mean_aggregation_exact_value() {
    let curves = vec![vec![0, unit(0.5)], vec![SCALE, unit(0.5)]];
    let r = aggregate_curves(&curves, AggMode::Mean, 0);
    assert_eq!(r, vec![unit(0.5), unit(0.5)]);
}

#[test]
fn mean_of_single_curve_is_identity() {
    let curves = vec![vec![unit(0.125), unit(0.625), unit(0.875)]];
    let r = aggregate_curves(&curves, AggMode::Mean, 0);
    assert_eq!(r, curves[0]);
}

#[test]
fn percentile_of_single_curve_is_identity() {
    let curves = vec![vec![unit(0.125), unit(0.625), unit(0.875)]];
    let r = aggregate_curves(&curves, AggMode::Percentile, unit(0.95));
    assert_eq!(r, curves[0]);
}

#[test]
fn percentile_median_of_odd_count_is_exact() {
    let curves = vec![
        vec![unit(0.1), unit(0.2)],
        vec![unit(0.3), unit(0.05)],
        vec![unit(0.2), unit(0.1)],
    ];
    let r = aggregate_curves(&curves, AggMode::Percentile, unit(0.5));
    assert_eq!(r, vec![unit(0.2), unit(0.1)]);
}

#[test]
fn percentile_extremes_are_min_and_max() {
    let curves = vec![vec![0, unit(0.5)], vec![SCALE, unit(0.25)]];
    let lo = aggregate_curves(&curves, AggMode::Percentile, 0);
    let hi = aggregate_curves(&curves, AggMode::Percentile, SCALE);
    assert_eq!(lo, vec![0, unit(0.25)]);
    assert_eq!(hi, vec![SCALE, unit(0.5)]);
}

#[test]
fn percentile_blends_by_fractional_rank() {
    let curves = vec![vec![0], vec![SCALE]];
    let r = aggregate_curves(&curves, AggMode::Percentile, unit(0.25));
    assert_eq!(r, vec![unit(0.25)]);
}

#[test]
fn aggregate_rejects_unknown_mode() {
    let curves = vec![vec![unit(0.5)]];
    let r = aggregate(&curves, &String::from("median"), unit(0.5));
    assert_eq!(r, Err(EngineError::UnknownAggregationMode));
}

#[test]
fn aggregate_accepts_mode_strings() {
    assert_eq!(parse_mode(&String::from("mean")), Ok(AggMode::Mean));
    assert_eq!(parse_mode(&String::from("percentile")), Ok(AggMode::Percentile));
    assert_eq!(
        parse_mode(&String::from("Mean")),
        Err(EngineError::UnknownAggregationMode)
    );
}

#[test]
fn interpolation_is_exact_on_grid_points() {
    let xs = vec![0, unit(0.5), SCALE];
    let ys = vec![0, unit(0.2), SCALE];
    assert_eq!(linear_interpolate(&xs, &ys, 0), 0);
    assert_eq!(linear_interpolate(&xs, &ys, unit(0.5)), unit(0.2));
    assert_eq!(linear_interpolate(&xs, &ys, SCALE), SCALE);
}

#[test]
fn interpolation_blends_inside_segments() {
    let xs = vec![0, unit(0.5), SCALE];
    let ys = vec![0, unit(0.2), SCALE];
    assert_eq!(linear_interpolate(&xs, &ys, unit(0.25)), unit(0.1));
    assert_eq!(linear_interpolate(&xs, &ys, unit(0.75)), unit(0.6));
}

#[test]
fn interpolation_clamps_outside_range() {
    let xs = vec![unit(0.2), unit(0.8)];
    let ys = vec![unit(0.3), unit(0.9)];
    assert_eq!(linear_interpolate(&xs, &ys, 0), unit(0.3));
    assert_eq!(linear_interpolate(&xs, &ys, SCALE), unit(0.9));
}

#[test]
fn robust_point_interpolates_threshold_and_precision() {
    let fnr = vec![unit(0.8), unit(0.2)];
    let prec = vec![unit(0.9), unit(0.4)];
    let grid = vec![unit(0.25), unit(0.75)];
    let r = robust_point(&fnr, &prec, &grid, unit(0.5));
    assert_eq!(r, Ok((unit(0.5), unit(0.65))));
}

#[test]
fn robust_point_rejects_flat_fnr_curve() {
    let fnr = vec![unit(0.4), unit(0.4)];
    let prec = vec![unit(0.9), unit(0.4)];
    let grid = vec![unit(0.25), unit(0.75)];
    let r = robust_point(&fnr, &prec, &grid, unit(0.5));
    assert_eq!(r, Err(EngineError::InterpolationFailure));
}

#[test]
fn robust_point_rejects_single_point_without_boundary() {
    let fnr = vec![0];
    let prec = vec![unit(0.4)];
    let grid = vec![unit(0.25)];
    let r = robust_point(&fnr, &prec, &grid, unit(0.5));
    assert_eq!(r, Err(EngineError::InterpolationFailure));
}

#[test]
fn robust_curve_single_sample_is_fully_determined() {
    // with one sample every bootstrap draw picks index 0, so the whole
    // chain is computable by hand: the FNR curve is constant 0, an
    // unusable interpolation domain, and the point is recorded missing
    let x = vec![unit(0.5)];
    let y = vec![unit(0.7)];
    let qt = vec![unit(0.6)];
    let grid = vec![0, unit(0.5), SCALE];
    let r = robust_curve(&x, &y, &qt, &grid, 1, &String::from("mean"), false, false, unit(0.1))
        .unwrap();
    assert_eq!(r.0, vec![None]);
    assert_eq!(r.1, vec![None]);
}

#[test]
fn robust_curve_reports_config_and_empty_errors() {
    let x = vec![unit(0.5)];
    let y = vec![unit(0.7)];
    let qt = vec![unit(0.6)];
    let grid = vec![0, unit(0.5), SCALE];
    let bad = robust_curve(&x, &y, &qt, &grid, 1, &String::from("midmean"), false, false, 0);
    assert_eq!(bad.unwrap_err(), EngineError::UnknownAggregationMode);
    let empty: Vec<i64> = Vec::new();
    let none = robust_curve(&empty, &empty, &qt, &grid, 1, &String::from("mean"), false, false, 0);
    assert_eq!(none.unwrap_err(), EngineError::EmptySample);
}

#[test]
fn robust_curve_is_reproducible_end_to_end() {
    let x = vec![unit(0.1), unit(0.5), unit(0.9)];
    let y = vec![unit(0.2), unit(0.6), unit(0.95)];
    let qt = vec![unit(0.5)];
    let grid = vec![0, unit(0.5), SCALE];
    let a = robust_curve(&x, &y, &qt, &grid, 1, &String::from("mean"), false, false, unit(0.05))
        .unwrap();
    let b = robust_curve(&x, &y, &qt, &grid, 1, &String::from("mean"), false, false, unit(0.05))
        .unwrap();
    assert_eq!(a.0, b.0);
    assert_eq!(a.1, b.1);
    assert_eq!(a.0.len(), 1);
    assert_eq!(a.1.len(), 1);
}

#[test]
fn degenerate_curve_is_flagged() {
    assert!(is_degenerate_curve(&vec![Some(SCALE), Some(SCALE)]));
    assert!(!is_degenerate_curve(&vec![Some(SCALE), Some(unit(0.5))]));
    assert!(!is_degenerate_curve(&vec![Some(SCALE), None]));
}

#[test]
fn batch_isolates_one_bad_combination() {
    let mut jobs = Vec::new();
    for i in 0..10usize {
        if i == 4 {
            jobs.push(BatchJob {
                x: Some(Vec::new()),
                y: Some(Vec::new()),
                target_fnr: unit(0.1),
                inverted_scale: false,
            });
        } else {
            jobs.push(BatchJob {
                x: Some(vec![unit(0.5)]),
                y: Some(vec![unit(0.7)]),
                target_fnr: unit(0.1),
                inverted_scale: false,
            });
        }
    }
    let qt = vec![unit(0.6)];
    let grid = vec![0, unit(0.5), SCALE];
    let outs = run_batch(&jobs, &qt, &grid, 1, &String::from("mean"), false).unwrap();
    assert_eq!(outs.len(), 10);
    let mut emitted = 0;
    let mut skipped = 0;
    for (i, o) in outs.iter().enumerate() {
        match o {
            JobOutcome::Emitted { precision, thresholds, .. } => {
                emitted += 1;
                assert_eq!(precision.len(), 1);
                assert_eq!(thresholds.len(), 1);
                assert!(i != 4);
            }
            JobOutcome::Skipped(e) => {
                skipped += 1;
                assert_eq!(i, 4);
                assert_eq!(*e, EngineError::EmptySample);
            }
        }
    }
    assert_eq!(emitted, 9);
    assert_eq!(skipped, 1);
}

#[test]
fn batch_skips_missing_columns_and_rejects_bad_mode() {
    let jobs = vec![BatchJob { x: None, y: None, target_fnr: 0, inverted_scale: false }];
    let qt = vec![unit(0.6)];
    let grid = vec![0, unit(0.5), SCALE];
    let outs = run_batch(&jobs, &qt, &grid, 1, &String::from("mean"), false).unwrap();
    assert!(matches!(outs[0], JobOutcome::Skipped(EngineError::MissingColumn)));
    let bad = run_batch(&jobs, &qt, &grid, 1, &String::from("average"), false);
    assert_eq!(bad.unwrap_err(), EngineError::UnknownAggregationMode);
}
