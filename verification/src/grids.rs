use vstd::prelude::*;

use crate::units::unit_seq;

verus! {

/// The uncertainty-estimation methods a combination can name.
#[derive(Clone, Copy, Debug, PartialEq, Eq, Structural)]
pub enum Method {
    Tta,
    Mcd,
    CkpDe,
    De,
    Ood,
}

/// The quality metrics a combination can pair with a method.
#[derive(Clone, Copy, Debug, PartialEq, Eq, Structural)]
pub enum Metric {
    Dice,
    Sdice,
}

/// The segmentation-aggregation variants; `Plain` is the unadorned column.
#[derive(Clone, Copy, Debug, PartialEq, Eq, Structural)]
pub enum Aggregation {
    Plain,
    Union,
    Inter,
    Consensus,
    Logit,
}

/// The metric-aggregation variants.
#[derive(Clone, Copy, Debug, PartialEq, Eq, Structural)]
pub enum MetricAgg {
    Mean,
    Max,
    Min,
    LogitMean,
}

/// One parameter combination of the batch; the external naming collaborator
/// turns it into concrete column identifiers. A method that carries no
/// metric aggregation (the out-of-distribution baseline) holds `None`.
#[derive(Clone, Copy, Debug, PartialEq, Eq, Structural)]
pub struct Combination {
    pub method: Method,
    pub drop_level: i64,
    pub metric: Metric,
    pub aggregation: Aggregation,
    pub metric_agg: Option<MetricAgg>,
}

/// The dropout levels each method is evaluated at, in fixed point.
pub open spec fn drop_levels_of(m: Method) -> Seq<i64> {
    match m {
        Method::Tta => seq![0i64, 100_000i64, 200_000i64, 300_000i64, 400_000i64, 500_000i64],
        Method::Ood => seq![0i64, 100_000i64, 200_000i64, 300_000i64, 400_000i64, 500_000i64],
        Method::Mcd => seq![100_000i64, 200_000i64, 300_000i64, 400_000i64, 500_000i64],
        Method::CkpDe => seq![0i64],
        Method::De => seq![0i64],
    }
}

pub open spec fn metric_of(k: int) -> Metric {
    if k == 0 {
        Metric::Dice
    } else {
        Metric::Sdice
    }
}

pub open spec fn aggregation_of(k: int) -> Aggregation {
    if k == 0 {
        Aggregation::Plain
    } else if k == 1 {
        Aggregation::Union
    } else if k == 2 {
        Aggregation::Inter
    } else if k == 3 {
        Aggregation::Consensus
    } else {
        Aggregation::Logit
    }
}

pub open spec fn metric_agg_of(k: int) -> MetricAgg {
    if k == 0 {
        MetricAgg::Mean
    } else if k == 1 {
        MetricAgg::Max
    } else if k == 2 {
        MetricAgg::Min
    } else {
        MetricAgg::LogitMean
    }
}

/// The combination at position `k` of a method's block, in mixed radix over
/// (drop level, metric, aggregation, metric aggregation); the
/// out-of-distribution baseline enumerates (drop level, metric) only.
pub open spec fn combo_at(m: Method, k: int) -> Combination {
    if m == Method::Ood {
        Combination {
            method: m,
            drop_level: drop_levels_of(m)[k / 2],
            metric: metric_of(k % 2),
            aggregation: Aggregation::Plain,
            metric_agg: None,
        }
    } else {
        Combination {
            method: m,
            drop_level: drop_levels_of(m)[k / 40],
            metric: metric_of((k / 20) % 2),
            aggregation: aggregation_of((k / 4) % 5),
            metric_agg: Some(metric_agg_of(k % 4)),
        }
    }
}

/// How many combinations a method's block holds.
pub open spec fn block_len(m: Method) -> nat {
    if m == Method::Ood {
        drop_levels_of(m).len() * 2
    } else {
        drop_levels_of(m).len() * 40
    }
}

/// A method's full block of combinations, in enumeration order.
pub open spec fn block_spec(m: Method) -> Seq<Combination> {
    Seq::new(block_len(m) as nat, |k: int| combo_at(m, k))
}

/// Every parameter combination of a run, in the fixed method order.
pub open spec fn combos_spec() -> Seq<Combination> {
    block_spec(Method::Tta) + block_spec(Method::Mcd) + block_spec(Method::CkpDe) + block_spec(
        Method::De,
    ) + block_spec(Method::Ood)
}

/// Law: every enumerated combination is well-formed — it carries its own
/// method, a dropout level that method is evaluated at, and a metric
/// aggregation exactly when the method takes one.
pub proof fn lemma_combo_at_wf(m: Method, k: int)
    requires
        0 <= k < block_len(m),
    ensures
        combo_at(m, k).method == m,
        drop_levels_of(m).contains(combo_at(m, k).drop_level),
        (m == Method::Ood) <==> combo_at(m, k).metric_agg is None,
{
    let nd = drop_levels_of(m).len() as int;
    if m == Method::Ood {
        vstd::arithmetic::div_mod::lemma_multiply_divide_lt(k, nd, 2);
        vstd::arithmetic::div_mod::lemma_div_pos_is_pos(k, 2);
        assert(drop_levels_of(m)[k / 2] == combo_at(m, k).drop_level);
    } else {
        vstd::arithmetic::div_mod::lemma_multiply_divide_lt(k, nd, 40);
        vstd::arithmetic::div_mod::lemma_div_pos_is_pos(k, 40);
        assert(drop_levels_of(m)[k / 40] == combo_at(m, k).drop_level);
    }
}

fn drop_levels_list(m: Method) -> (r: Vec<i64>)
    ensures
        r@ == drop_levels_of(m),
{
    let mut v: Vec<i64> = Vec::new();
    match m {
        Method::Tta | Method::Ood => {
            v.push(0);
            v.push(100_000);
            v.push(200_000);
            v.push(300_000);
            v.push(400_000);
            v.push(500_000);
        },
        Method::Mcd => {
            v.push(100_000);
            v.push(200_000);
            v.push(300_000);
            v.push(400_000);
            v.push(500_000);
        },
        Method::CkpDe | Method::De => {
            v.push(0);
        },
    }
    proof {
        assert(v@ =~= drop_levels_of(m));
    }
    v
}

fn block_of(m: Method) -> (r: Vec<Combination>)
    ensures
        r@ == block_spec(m),
{
    let drops = drop_levels_list(m);
    let nd = drops.len();
    let mut out: Vec<Combination> = Vec::new();
    if let Method::Ood = m {
        let total = nd * 2;
        for k in 0..total
            invariant
                drops@ == drop_levels_of(m),
                nd == drops@.len(),
                m == Method::Ood,
                total == nd * 2,
                out@.len() == k,
                forall|j: int| 0 <= j < k ==> out@[j] == combo_at(m, j),
        {
            let d = k / 2;
            let mi = k % 2;
            proof {
                vstd::arithmetic::div_mod::lemma_multiply_divide_lt(k as int, nd as int, 2);
            }
            let metric = if mi == 0 {
                Metric::Dice
            } else {
                Metric::Sdice
            };
            out.push(
                Combination {
                    method: m,
                    drop_level: drops[d],
                    metric,
                    aggregation: Aggregation::Plain,
                    metric_agg: None,
                },
            );
        }
        proof {
            assert(out@ =~= block_spec(m));
        }
        out
    } else {
        let total = nd * 40;
        for k in 0..total
            invariant
                drops@ == drop_levels_of(m),
                nd == drops@.len(),
                m != Method::Ood,
                total == nd * 40,
                out@.len() == k,
                forall|j: int| 0 <= j < k ==> out@[j] == combo_at(m, j),
        {
            let d = k / 40;
            let mi = (k / 20) % 2;
            let ai = (k / 4) % 5;
            let gi = k % 4;
            proof {
                vstd::arithmetic::div_mod::lemma_multiply_divide_lt(k as int, nd as int, 40);
            }
            let metric = if mi == 0 {
                Metric::Dice
            } else {
                Metric::Sdice
            };
            let aggregation = if ai == 0 {
                Aggregation::Plain
            } else if ai == 1 {
                Aggregation::Union
            } else if ai == 2 {
                Aggregation::Inter
            } else if ai == 3 {
                Aggregation::Consensus
            } else {
                Aggregation::Logit
            };
            let metric_agg = if gi == 0 {
                MetricAgg::Mean
            } else if gi == 1 {
                MetricAgg::Max
            } else if gi == 2 {
                MetricAgg::Min
            } else {
                MetricAgg::LogitMean
            };
            out.push(
                Combination {
                    method: m,
                    drop_level: drops[d],
                    metric,
                    aggregation,
                    metric_agg: Some(metric_agg),
                },
            );
        }
        proof {
            assert(out@ =~= block_spec(m));
        }
        out
    }
}

/// Enumerates every parameter combination of a run: for each method its
/// dropout levels crossed with the metrics, aggregations and metric
/// aggregations, the out-of-distribution baseline with its two bare
/// variants — exactly `combos_spec()`, in its order.
pub fn build_combinations() -> (r: Vec<Combination>)
    ensures
        r@ == combos_spec(),
{
    let mut out = block_of(Method::Tta);
    let mut b = block_of(Method::Mcd);
    out.append(&mut b);
    let mut b = block_of(Method::CkpDe);
    out.append(&mut b);
    let mut b = block_of(Method::De);
    out.append(&mut b);
    let mut b = block_of(Method::Ood);
    out.append(&mut b);
    proof {
        assert(out@ =~= combos_spec());
    }
    out
}

/// The quality-acceptance grid of a run: twenty cutoffs from 0.60 in steps
/// of 0.02, in fixed point.
pub fn quality_threshold_grid() -> (r: Vec<i64>)
    ensures
        r@.len() == 20,
        forall|i: int| 0 <= i < 20 ==> r@[i] == 600_000 + 20_000 * i,
        unit_seq(r@),
{
    let mut v: Vec<i64> = Vec::new();
    for i in 0..20usize
        invariant
            v@.len() == i,
            forall|j: int| 0 <= j < i ==> v@[j] == 600_000 + 20_000 * j,
            unit_seq(v@),
    {
        v.push(600_000 + 20_000 * (i as i64));
    }
    v
}

/// The quantile grid of a run: forty candidate score cutoffs from 0.025 to
/// 1.0 in steps of 0.025, in fixed point.
pub fn quantile_grid() -> (r: Vec<i64>)
    ensures
        r@.len() == 40,
        forall|i: int| 0 <= i < 40 ==> r@[i] == 25_000 * (i + 1),
        unit_seq(r@),
{
    let mut v: Vec<i64> = Vec::new();
    for i in 0..40usize
        invariant
            v@.len() == i,
            forall|j: int| 0 <= j < i ==> v@[j] == 25_000 * (j + 1),
            unit_seq(v@),
    {
        v.push(25_000 * (i as i64 + 1));
    }
    v
}

/// The target false-negative rates of a run: 0.05 to 0.25 in steps of
/// 0.05, in fixed point.
pub fn target_fnr_grid() -> (r: Vec<i64>)
    ensures
        r@.len() == 5,
        forall|i: int| 0 <= i < 5 ==> r@[i] == 50_000 * (i + 1),
        unit_seq(r@),
{
    let mut v: Vec<i64> = Vec::new();
    for i in 0..5usize
        invariant
            v@.len() == i,
            forall|j: int| 0 <= j < i ==> v@[j] == 50_000 * (j + 1),
            unit_seq(v@),
    {
        v.push(50_000 * (i as i64 + 1));
    }
    v
}

} // verus!
