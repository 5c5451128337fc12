use vstd::prelude::*;

use crate::aggregate::{sort_values, value_leq};

verus! {

/// One persisted robust-curve row: the key attributes naming its
/// combination, already resolved to plain strings by the external naming
/// collaborator, and the three fixed-point arrays. A missing curve point is
/// `None`.
pub struct TraceData {
    pub method: String,
    pub dataset: String,
    pub drop_level: i64,
    pub fnr: i64,
    pub metric: String,
    pub aggregation: String,
    pub metric_aggregation: String,
    pub th: Vec<Option<i64>>,
    pub xs: Vec<i64>,
    pub ys: Vec<Option<i64>>,
}

/// An optional filter over the key attributes of persisted rows; an absent
/// field constrains nothing.
pub struct TraceFilter {
    pub method: Option<String>,
    pub dataset: Option<String>,
    pub metric: Option<String>,
}

/// The key attributes of one row, without its arrays.
pub struct TraceMeta {
    pub method: String,
    pub dataset: String,
    pub metric: String,
    pub aggregation: String,
    pub metric_aggregation: String,
}

/// Whether a row satisfies every present field of a filter.
pub open spec fn filter_matches(t: TraceData, f: TraceFilter) -> bool {
    &&& (f.method is Some ==> t.method@ == f.method.unwrap()@)
    &&& (f.dataset is Some ==> t.dataset@ == f.dataset.unwrap()@)
    &&& (f.metric is Some ==> t.metric@ == f.metric.unwrap()@)
}

pub fn matches_filter(t: &TraceData, f: &TraceFilter) -> (r: bool)
    ensures
        r == filter_matches(*t, *f),
{
    if let Some(m) = &f.method {
        if !(t.method == *m) {
            return false;
        }
    }
    if let Some(d) = &f.dataset {
        if !(t.dataset == *d) {
            return false;
        }
    }
    if let Some(m) = &f.metric {
        if !(t.metric == *m) {
            return false;
        }
    }
    true
}

/// The rows that satisfy the filter, in their original order.
pub open spec fn filtered_spec(rows: Seq<TraceData>, f: TraceFilter) -> Seq<TraceData> {
    rows.filter(|t: TraceData| filter_matches(t, f))
}

/// Keeps exactly the rows that satisfy the filter, in their original order.
pub fn filter_traces(rows: Vec<TraceData>, f: &TraceFilter) -> (r: Vec<TraceData>)
    ensures
        r@ == filtered_spec(rows@, *f),
{
    let ghost orig = rows@;
    proof {
        reveal(Seq::filter);
        assert(orig.take(0).len() == 0);
    }
    let mut rest = rows;
    let mut out: Vec<TraceData> = Vec::new();
    let ghost mut done: int = 0;
    while rest.len() > 0
        invariant
            0 <= done <= orig.len(),
            rest@ =~= orig.skip(done),
            out@ == filtered_spec(orig.take(done), *f),
        decreases rest@.len(),
    {
        let t = rest.remove(0);
        proof {
            assert(rest@.len() == orig.skip(done).len() - 1);
            assert(t == orig.skip(done)[0]);
            assert(t == orig[done]);
            reveal(Seq::filter);
            let d1 = orig.take(done + 1);
            assert(d1.drop_last() =~= orig.take(done));
            assert(d1.last() == orig[done]);
            assert(filtered_spec(d1, *f) == if filter_matches(orig[done], *f) {
                filtered_spec(orig.take(done), *f).push(orig[done])
            } else {
                filtered_spec(orig.take(done), *f)
            });
        }
        if matches_filter(&t, f) {
            out.push(t);
        }
        proof {
            done = done + 1;
            assert(rest@ =~= orig.skip(done));
            assert(out@ == filtered_spec(orig.take(done), *f));
        }
    }
    proof {
        assert(orig.take(orig.len() as int) =~= orig);
    }
    out
}

/// The key attributes of a row, copied out.
pub fn meta_of(t: &TraceData) -> (r: TraceMeta)
    ensures
        r.method@ == t.method@,
        r.dataset@ == t.dataset@,
        r.metric@ == t.metric@,
        r.aggregation@ == t.aggregation@,
        r.metric_aggregation@ == t.metric_aggregation@,
{
    TraceMeta {
        method: t.method.clone(),
        dataset: t.dataset.clone(),
        metric: t.metric.clone(),
        aggregation: t.aggregation.clone(),
        metric_aggregation: t.metric_aggregation.clone(),
    }
}

/// The first-occurrence deduplication of a string sequence: each value
/// appears once, at the position of its first occurrence.
pub open spec fn dedup_spec(s: Seq<Seq<char>>) -> Seq<Seq<char>>
    decreases s.len(),
{
    if s.len() == 0 {
        s
    } else {
        let prefix = dedup_spec(s.drop_last());
        if s.drop_last().contains(s.last()) {
            prefix
        } else {
            prefix.push(s.last())
        }
    }
}

proof fn lemma_dedup_contains(s: Seq<Seq<char>>, x: Seq<char>)
    ensures
        dedup_spec(s).contains(x) <==> s.contains(x),
    decreases s.len(),
{
    if s.len() > 0 {
        lemma_dedup_contains(s.drop_last(), x);
        assert(s.contains(x) <==> s.drop_last().contains(x) || s.last() == x) by {
            if s.contains(x) {
                let i = choose|i: int| 0 <= i < s.len() && s[i] == x;
                if i < s.len() - 1 {
                    assert(s.drop_last()[i] == x);
                }
            }
            if s.drop_last().contains(x) {
                let i = choose|i: int| 0 <= i < s.len() - 1 && s.drop_last()[i] == x;
                assert(s[i] == x);
            }
        }
        if !s.drop_last().contains(s.last()) {
            let prefix = dedup_spec(s.drop_last());
            assert forall|y: Seq<char>| prefix.push(s.last()).contains(y) implies prefix.contains(
                y,
            ) || s.last() == y by {
                let i = choose|i: int|
                    0 <= i < prefix.push(s.last()).len() && prefix.push(s.last())[i] == y;
                if i < prefix.len() {
                    assert(prefix[i] == y);
                }
            }
            assert(prefix.push(s.last())[prefix.len() as int] == s.last());
            assert(prefix.push(s.last()).contains(s.last()));
            assert forall|y: Seq<char>| prefix.contains(y) implies prefix.push(s.last()).contains(
                y,
            ) by {
                let i = choose|i: int| 0 <= i < prefix.len() && prefix[i] == y;
                assert(prefix.push(s.last())[i] == y);
            }
        }
    }
}

fn contains_string(v: &Vec<String>, s: &String) -> (r: bool)
    ensures
        r == v.deep_view().contains(s@),
{
    let n = v.len();
    for i in 0..n
        invariant
            n == v@.len(),
            forall|j: int| 0 <= j < i ==> v.deep_view()[j] != s@,
    {
        if v[i] == *s {
            proof {
                assert(v.deep_view()[i as int] == s@);
            }
            return true;
        }
    }
    proof {
        if v.deep_view().contains(s@) {
            let i = choose|i: int| 0 <= i < v.deep_view().len() && v.deep_view()[i] == s@;
            assert(v.deep_view()[i] != s@);
        }
    }
    false
}

/// Drops every repeated string, keeping first occurrences in their order —
/// the deterministic option list behind each report dropdown.
pub fn unique_ordered(vals: &Vec<String>) -> (r: Vec<String>)
    ensures
        r.deep_view() == dedup_spec(vals.deep_view()),
{
    let ghost vs = vals.deep_view();
    let mut out: Vec<String> = Vec::new();
    let n = vals.len();
    for i in 0..n
        invariant
            n == vals@.len(),
            vs == vals.deep_view(),
            out.deep_view() == dedup_spec(vs.take(i as int)),
    {
        proof {
            assert(vs.take(i + 1).drop_last() =~= vs.take(i as int));
            assert(vs.take(i + 1).last() == vs[i as int]);
            lemma_dedup_contains(vs.take(i as int), vs[i as int]);
            assert(vals@[i as int]@ == vs[i as int]);
        }
        let seen = contains_string(&out, &vals[i]);
        proof {
            assert(out.deep_view().contains(vs[i as int]) <==> vs.take(i as int).contains(
                vs[i as int],
            ));
        }
        if !seen {
            let ghost before = out.deep_view();
            out.push(vals[i].clone());
            proof {
                assert(out.deep_view() =~= before.push(vs[i as int]));
            }
        }
    }
    proof {
        assert(vs.take(n as int) =~= vs);
    }
    out
}

/// Adjacent duplicates removed from a sorted value sequence.
pub open spec fn dedup_sorted(s: Seq<i64>) -> Seq<i64>
    decreases s.len(),
{
    if s.len() == 0 {
        s
    } else {
        let prefix = dedup_sorted(s.drop_last());
        if s.len() >= 2 && s[s.len() - 2] == s.last() {
            prefix
        } else {
            prefix.push(s.last())
        }
    }
}

/// Sorts values ascending and removes duplicates — the deterministic option
/// list behind each numeric report dropdown.
pub fn unique_values(vals: &Vec<i64>) -> (r: Vec<i64>)
    ensures
        r@ == dedup_sorted(vals@.sort_by(value_leq())),
{
    let sorted = sort_values(vals);
    let mut out: Vec<i64> = Vec::new();
    let n = sorted.len();
    for i in 0..n
        invariant
            n == sorted@.len(),
            sorted@ == vals@.sort_by(value_leq()),
            out@ == dedup_sorted(sorted@.take(i as int)),
    {
        proof {
            assert(sorted@.take(i + 1).drop_last() =~= sorted@.take(i as int));
            assert(sorted@.take(i + 1).last() == sorted@[i as int]);
        }
        if i > 0 && sorted[i - 1] == sorted[i] {
            proof {
                assert(sorted@.take(i + 1)[i - 1] == sorted@[i - 1]);
            }
        } else {
            out.push(sorted[i]);
        }
    }
    proof {
        assert(sorted@.take(n as int) =~= sorted@);
    }
    out
}

/// The option lists a report offers, one per key attribute, plus the sorted
/// numeric options.
pub struct ReportOptions {
    pub methods: Vec<String>,
    pub datasets: Vec<String>,
    pub metrics: Vec<String>,
    pub aggregations: Vec<String>,
    pub metric_aggregations: Vec<String>,
    pub drop_levels: Vec<i64>,
    pub fnrs: Vec<i64>,
}

pub open spec fn methods_view(rows: Seq<TraceData>) -> Seq<Seq<char>> {
    Seq::new(rows.len(), |i: int| rows[i].method@)
}

pub open spec fn datasets_view(rows: Seq<TraceData>) -> Seq<Seq<char>> {
    Seq::new(rows.len(), |i: int| rows[i].dataset@)
}

pub open spec fn metrics_view(rows: Seq<TraceData>) -> Seq<Seq<char>> {
    Seq::new(rows.len(), |i: int| rows[i].metric@)
}

pub open spec fn aggregations_view(rows: Seq<TraceData>) -> Seq<Seq<char>> {
    Seq::new(rows.len(), |i: int| rows[i].aggregation@)
}

pub open spec fn metric_aggregations_view(rows: Seq<TraceData>) -> Seq<Seq<char>> {
    Seq::new(rows.len(), |i: int| rows[i].metric_aggregation@)
}

pub open spec fn drop_levels_view(rows: Seq<TraceData>) -> Seq<i64> {
    Seq::new(rows.len(), |i: int| rows[i].drop_level)
}

pub open spec fn fnrs_view(rows: Seq<TraceData>) -> Seq<i64> {
    Seq::new(rows.len(), |i: int| rows[i].fnr)
}

fn project_methods(rows: &Vec<TraceData>) -> (r: Vec<String>)
    ensures
        r.deep_view() == methods_view(rows@),
{
    let mut v: Vec<String> = Vec::new();
    let n = rows.len();
    for i in 0..n
        invariant
            n == rows@.len(),
            v@.len() == i,
            v.deep_view() =~= methods_view(rows@).take(i as int),
    {
        let c = rows[i].method.clone();
        proof {
            assert(c@ == rows@[i as int].method@);
        }
        let ghost before = v.deep_view();
        v.push(c);
        proof {
            assert forall|k: int| 0 <= k < v@.len() implies v.deep_view()[k] == methods_view(
                rows@,
            ).take(i + 1)[k] by {
                if k < i {
                    assert(v.deep_view()[k] == before[k]);
                } else {
                    assert(v@[k] == c);
                }
            }
            assert(v.deep_view() =~= methods_view(rows@).take(i + 1));
        }
    }
    proof {
        assert(methods_view(rows@).take(n as int) =~= methods_view(rows@));
    }
    v
}

fn project_datasets(rows: &Vec<TraceData>) -> (r: Vec<String>)
    ensures
        r.deep_view() == datasets_view(rows@),
{
    let mut v: Vec<String> = Vec::new();
    let n = rows.len();
    for i in 0..n
        invariant
            n == rows@.len(),
            v@.len() == i,
            v.deep_view() =~= datasets_view(rows@).take(i as int),
    {
        let c = rows[i].dataset.clone();
        proof {
            assert(c@ == rows@[i as int].dataset@);
        }
        let ghost before = v.deep_view();
        v.push(c);
        proof {
            assert forall|k: int| 0 <= k < v@.len() implies v.deep_view()[k] == datasets_view(
                rows@,
            ).take(i + 1)[k] by {
                if k < i {
                    assert(v.deep_view()[k] == before[k]);
                } else {
                    assert(v@[k] == c);
                }
            }
            assert(v.deep_view() =~= datasets_view(rows@).take(i + 1));
        }
    }
    proof {
        assert(datasets_view(rows@).take(n as int) =~= datasets_view(rows@));
    }
    v
}

fn project_metrics(rows: &Vec<TraceData>) -> (r: Vec<String>)
    ensures
        r.deep_view() == metrics_view(rows@),
{
    let mut v: Vec<String> = Vec::new();
    let n = rows.len();
    for i in 0..n
        invariant
            n == rows@.len(),
            v@.len() == i,
            v.deep_view() =~= metrics_view(rows@).take(i as int),
    {
        let c = rows[i].metric.clone();
        proof {
            assert(c@ == rows@[i as int].metric@);
        }
        let ghost before = v.deep_view();
        v.push(c);
        proof {
            assert forall|k: int| 0 <= k < v@.len() implies v.deep_view()[k] == metrics_view(
                rows@,
            ).take(i + 1)[k] by {
                if k < i {
                    assert(v.deep_view()[k] == before[k]);
                } else {
                    assert(v@[k] == c);
                }
            }
            assert(v.deep_view() =~= metrics_view(rows@).take(i + 1));
        }
    }
    proof {
        assert(metrics_view(rows@).take(n as int) =~= metrics_view(rows@));
    }
    v
}

fn project_aggregations(rows: &Vec<TraceData>) -> (r: Vec<String>)
    ensures
        r.deep_view() == aggregations_view(rows@),
{
    let mut v: Vec<String> = Vec::new();
    let n = rows.len();
    for i in 0..n
        invariant
            n == rows@.len(),
            v@.len() == i,
            v.deep_view() =~= aggregations_view(rows@).take(i as int),
    {
        let c = rows[i].aggregation.clone();
        proof {
            assert(c@ == rows@[i as int].aggregation@);
        }
        let ghost before = v.deep_view();
        v.push(c);
        proof {
            assert forall|k: int| 0 <= k < v@.len() implies v.deep_view()[k] == aggregations_view(
                rows@,
            ).take(i + 1)[k] by {
                if k < i {
                    assert(v.deep_view()[k] == before[k]);
                } else {
                    assert(v@[k] == c);
                }
            }
            assert(v.deep_view() =~= aggregations_view(rows@).take(i + 1));
        }
    }
    proof {
        assert(aggregations_view(rows@).take(n as int) =~= aggregations_view(rows@));
    }
    v
}

fn project_metric_aggregations(rows: &Vec<TraceData>) -> (r: Vec<String>)
    ensures
        r.deep_view() == metric_aggregations_view(rows@),
{
    let mut v: Vec<String> = Vec::new();
    let n = rows.len();
    for i in 0..n
        invariant
            n == rows@.len(),
            v@.len() == i,
            v.deep_view() =~= metric_aggregations_view(rows@).take(i as int),
    {
        let c = rows[i].metric_aggregation.clone();
        proof {
            assert(c@ == rows@[i as int].metric_aggregation@);
        }
        let ghost before = v.deep_view();
        v.push(c);
        proof {
            assert forall|k: int| 0 <= k < v@.len() implies v.deep_view()[k] == metric_aggregations_view(
                rows@,
            ).take(i + 1)[k] by {
                if k < i {
                    assert(v.deep_view()[k] == before[k]);
                } else {
                    assert(v@[k] == c);
                }
            }
            assert(v.deep_view() =~= metric_aggregations_view(rows@).take(i + 1));
        }
    }
    proof {
        assert(metric_aggregations_view(rows@).take(n as int) =~= metric_aggregations_view(
            rows@,
        ));
    }
    v
}

/// The compute stage of the report builder: from loaded rows, the
/// deduplicated option list of every key attribute — first occurrences in
/// row order for the string attributes, sorted unique values for the
/// numeric ones. Reading files and rendering markup stay with the caller.
pub fn run(rows: &Vec<TraceData>) -> (r: ReportOptions)
    ensures
        r.methods.deep_view() == dedup_spec(methods_view(rows@)),
        r.datasets.deep_view() == dedup_spec(datasets_view(rows@)),
        r.metrics.deep_view() == dedup_spec(metrics_view(rows@)),
        r.aggregations.deep_view() == dedup_spec(aggregations_view(rows@)),
        r.metric_aggregations.deep_view() == dedup_spec(metric_aggregations_view(rows@)),
        r.drop_levels@ == dedup_sorted(drop_levels_view(rows@).sort_by(value_leq())),
        r.fnrs@ == dedup_sorted(fnrs_view(rows@).sort_by(value_leq())),
{
    let methods = unique_ordered(&project_methods(rows));
    let datasets = unique_ordered(&project_datasets(rows));
    let metrics = unique_ordered(&project_metrics(rows));
    let aggregations = unique_ordered(&project_aggregations(rows));
    let metric_aggregations = unique_ordered(&project_metric_aggregations(rows));

    let mut drops: Vec<i64> = Vec::new();
    let mut fnrs: Vec<i64> = Vec::new();
    let n = rows.len();
    for i in 0..n
        invariant
            n == rows@.len(),
            drops@ =~= drop_levels_view(rows@).take(i as int),
            fnrs@ =~= fnrs_view(rows@).take(i as int),
    {
        drops.push(rows[i].drop_level);
        fnrs.push(rows[i].fnr);
        proof {
            assert(drops@ =~= drop_levels_view(rows@).take(i + 1));
            assert(fnrs@ =~= fnrs_view(rows@).take(i + 1));
        }
    }
    proof {
        assert(drop_levels_view(rows@).take(n as int) =~= drop_levels_view(rows@));
        assert(fnrs_view(rows@).take(n as int) =~= fnrs_view(rows@));
    }
    let drop_levels = unique_values(&drops);
    let fnrs = unique_values(&fnrs);
    ReportOptions {
        methods,
        datasets,
        metrics,
        aggregations,
        metric_aggregations,
        drop_levels,
        fnrs,
    }
}

} // verus!
