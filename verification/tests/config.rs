use robust_curves::errors::EngineError;
use robust_curves::grids::{build_combinations, quality_threshold_grid, quantile_grid,
    target_fnr_grid, Aggregation, Combination, Method, Metric, MetricAgg};
use robust_curves::report::{filter_traces, matches_filter, meta_of, run, unique_ordered,
    unique_values, TraceData, TraceFilter};
use robust_curves::units::SCALE;

fn row(method: &str, dataset: &str, metric: &str, drop_level: i64, fnr: i64) -> TraceData {
    TraceData {
        method: String::from(method),
        dataset: String::from(dataset),
        drop_level,
        fnr,
        metric: String::from(metric),
        aggregation: String::from("_union"),
        metric_aggregation: String::from("mean"),
        th: vec![Some(SCALE / 2)],
        xs: vec![600_000],
        ys: vec![Some(SCALE)],
    }
}

#[test]
fn quality_grid_spans_sixty_to_ninety_eight_percent() {
    let g = quality_threshold_grid();
    assert_eq!(g.len(), 20);
    assert_eq!(g[0], 600_000);
    assert_eq!(g[1], 620_000);
    assert_eq!(g[19], 980_000);
}

#[test]
fn quantile_grid_spans_unit_interval() {
    let g = quantile_grid();
    assert_eq!(g.len(), 40);
    assert_eq!(g[0], 25_000);
    assert_eq!(g[39], 1_000_000);
}

#[test]
fn target_fnr_grid_is_five_to_twenty_five_percent() {
    let g = target_fnr_grid();
    assert_eq!(g, vec![50_000, 100_000, 150_000, 200_000, 250_000]);
}

#[test]
fn combinations_enumerate_every_parameter_choice() {
    let combos = build_combinations();
    // TTA 6*2*5*4 + MCd 5*2*5*4 + ckp-DE 1*2*5*4 + DE 1*2*5*4 + OOD 6*2
    assert_eq!(combos.len(), 240 + 200 + 40 + 40 + 12);
    assert_eq!(
        combos[0],
        Combination {
            method: Method::Tta,
            drop_level: 0,
            metric: Metric::Dice,
            aggregation: Aggregation::Plain,
            metric_agg: Some(MetricAgg::Mean),
        }
    );
    assert_eq!(combos[1].metric_agg, Some(MetricAgg::Max));
    assert_eq!(combos[4].aggregation, Aggregation::Union);
    assert_eq!(combos[20].metric, Metric::Sdice);
    assert_eq!(combos[40].drop_level, 100_000);
    // the out-of-distribution block closes the enumeration
    assert_eq!(
        combos[520],
        Combination {
            method: Method::Ood,
            drop_level: 0,
            metric: Metric::Dice,
            aggregation: Aggregation::Plain,
            metric_agg: None,
        }
    );
    assert_eq!(combos[521].metric, Metric::Sdice);
    assert_eq!(combos[531].drop_level, 500_000);
    for c in &combos {
        assert_eq!(c.method == Method::Ood, c.metric_agg.is_none());
    }
}

#[test]
fn unique_ordered_keeps_first_occurrences() {
    let vals = vec![
        String::from("MCd"),
        String::from("TTA"),
        String::from("MCd"),
        String::from("DE"),
        String::from("TTA"),
    ];
    let r = unique_ordered(&vals);
    assert_eq!(r, vec![String::from("MCd"), String::from("TTA"), String::from("DE")]);
}

#[test]
fn unique_values_sorts_and_dedups() {
    let vals = vec![300_000, 100_000, 300_000, 200_000, 100_000];
    assert_eq!(unique_values(&vals), vec![100_000, 200_000, 300_000]);
}

#[test]
fn filters_constrain_only_present_fields() {
    let t = row("MCd", "Brats", "dice", 100_000, 200_000);
    let all = TraceFilter { method: None, dataset: None, metric: None };
    assert!(matches_filter(&t, &all));
    let by_method = TraceFilter {
        method: Some(String::from("MCd")),
        dataset: None,
        metric: None,
    };
    assert!(matches_filter(&t, &by_method));
    let other_method = TraceFilter {
        method: Some(String::from("TTA")),
        dataset: None,
        metric: None,
    };
    assert!(!matches_filter(&t, &other_method));
}

#[test]
fn filter_traces_keeps_matching_rows_in_order() {
    let rows = vec![
        row("MCd", "Brats", "dice", 100_000, 200_000),
        row("TTA", "Brats", "dice", 100_000, 200_000),
        row("MCd", "Lung", "sdice", 200_000, 100_000),
    ];
    let f = TraceFilter { method: Some(String::from("MCd")), dataset: None, metric: None };
    let kept = filter_traces(rows, &f);
    assert_eq!(kept.len(), 2);
    assert_eq!(kept[0].dataset, "Brats");
    assert_eq!(kept[1].dataset, "Lung");
}

#[test]
fn report_options_list_every_attribute_once() {
    let rows = vec![
        row("MCd", "Brats", "dice", 100_000, 200_000),
        row("TTA", "Brats", "sdice", 300_000, 100_000),
        row("MCd", "Lung", "dice", 100_000, 200_000),
    ];
    let opts = run(&rows);
    assert_eq!(opts.methods, vec![String::from("MCd"), String::from("TTA")]);
    assert_eq!(opts.datasets, vec![String::from("Brats"), String::from("Lung")]);
    assert_eq!(opts.metrics, vec![String::from("dice"), String::from("sdice")]);
    assert_eq!(opts.aggregations, vec![String::from("_union")]);
    assert_eq!(opts.metric_aggregations, vec![String::from("mean")]);
    assert_eq!(opts.drop_levels, vec![100_000, 300_000]);
    assert_eq!(opts.fnrs, vec![100_000, 200_000]);
}

#[test]
fn meta_of_copies_key_attributes() {
    let t = row("MCd", "Brats", "dice", 100_000, 200_000);
    let m = meta_of(&t);
    assert_eq!(m.method, "MCd");
    assert_eq!(m.dataset, "Brats");
    assert_eq!(m.metric, "dice");
    assert_eq!(m.aggregation, "_union");
    assert_eq!(m.metric_aggregation, "mean");
}

#[test]
fn error_names_are_stable() {
    assert_eq!(EngineError::EmptySample.name(), "empty sample");
    assert_eq!(EngineError::MissingColumn.name(), "missing column");
    assert_eq!(EngineError::UnknownAggregationMode.name(), "unknown aggregation mode");
    assert_eq!(EngineError::InterpolationFailure.name(), "interpolation failure");
    assert_ne!(EngineError::EmptySample, EngineError::MissingColumn);
}
