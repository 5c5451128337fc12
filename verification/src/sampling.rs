use vstd::prelude::*;

use crate::errors::EngineError;

verus! {

/// The index sequence that rand's `StdRng`, seeded with `seed`, produces for
/// `count` successive draws of `gen_range(0..bound)`. The generator is a
/// deterministic, platform-independent function of its seed, so the draws are
/// a fixed function of `(seed, bound, count)`; nothing further is assumed
/// about which indices come out.
pub uninterp spec fn draws_of(seed: u64, bound: nat, count: nat) -> Seq<usize>;

/// Relies on rand's `StdRng::seed_from_u64` and `Rng::gen_range`:
/// the seeded generator is deterministic and platform-independent, and
/// `gen_range(0..bound)` returns a value below `bound` (it panics only on an
/// empty range, which `bound > 0` rules out).
#[verifier::external_body]
fn draw_indices(seed: u64, bound: usize, count: usize) -> (r: Vec<usize>)
    requires
        bound > 0,
    ensures
        r@ == draws_of(seed, bound as nat, count as nat),
        r@.len() == count,
        forall|k: int| 0 <= k < r@.len() ==> r@[k] < bound,
{
    let mut rng = <rand::rngs::StdRng as rand::SeedableRng>::seed_from_u64(seed);
    let mut out: Vec<usize> = Vec::with_capacity(count);
    for _ in 0..count {
        out.push(rand::Rng::gen_range(&mut rng, 0..bound));
    }
    out
}

/// The sequence `vals` re-read through the index sequence `idx`.
pub open spec fn gathered(vals: Seq<i64>, idx: Seq<usize>) -> Seq<i64> {
    Seq::new(idx.len(), |j: int| vals[idx[j] as int])
}

/// The resample of `vals` for replicate `rep`: `vals` re-read through the
/// `n` index draws that replicate `rep` seeds.
pub open spec fn resample_spec(vals: Seq<i64>, n: nat, rep: u64) -> Seq<i64> {
    gathered(vals, draws_of(rep, n, n))
}

/// One bootstrap resample of an aligned pair: `n` indices drawn uniformly
/// with replacement from `[0, n)` by a generator seeded from the replicate
/// index alone, and both sequences re-read through the same draws. The
/// result is a fixed function of `(x, y, rep)`, which makes every report
/// reproducible. An empty pair is the one failure.
pub fn bootstrap_sample(x: &Vec<i64>, y: &Vec<i64>, rep: u64) -> (r: Result<
    (Vec<i64>, Vec<i64>),
    EngineError,
>)
    requires
        x@.len() == y@.len(),
    ensures
        match r {
            Ok(p) => {
                &&& x@.len() > 0
                &&& p.0@ == resample_spec(x@, x@.len(), rep)
                &&& p.1@ == resample_spec(y@, y@.len(), rep)
                &&& p.0@.len() == x@.len()
                &&& p.1@.len() == y@.len()
                &&& forall|k: int| 0 <= k < p.0@.len() ==> x@.contains(#[trigger] p.0@[k])
                &&& forall|k: int| 0 <= k < p.1@.len() ==> y@.contains(#[trigger] p.1@[k])
            },
            Err(e) => e == EngineError::EmptySample && x@.len() == 0,
        },
{
    let n = x.len();
    if n == 0 {
        return Err(EngineError::EmptySample);
    }
    let idx = draw_indices(rep, n, n);
    let mut xb: Vec<i64> = Vec::new();
    let mut yb: Vec<i64> = Vec::new();
    for j in 0..n
        invariant
            n == x@.len(),
            n == y@.len(),
            idx@.len() == n,
            idx@ == draws_of(rep, n as nat, n as nat),
            forall|k: int| 0 <= k < idx@.len() ==> idx@[k] < n,
            xb@ == gathered(x@, idx@.take(j as int)),
            yb@ == gathered(y@, idx@.take(j as int)),
    {
        let i = idx[j];
        xb.push(x[i]);
        yb.push(y[i]);
        proof {
            assert(idx@.take(j + 1).drop_last() =~= idx@.take(j as int));
            assert(xb@ =~= gathered(x@, idx@.take(j + 1)));
            assert(yb@ =~= gathered(y@, idx@.take(j + 1)));
        }
    }
    proof {
        assert(idx@.take(n as int) =~= idx@);
        assert forall|k: int| 0 <= k < n implies x@.contains(#[trigger] gathered(
            x@,
            idx@,
        )[k]) by {
            assert(gathered(x@, idx@)[k] == x@[idx@[k] as int]);
        }
        assert forall|k: int| 0 <= k < n implies y@.contains(#[trigger] gathered(
            y@,
            idx@,
        )[k]) by {
            assert(gathered(y@, idx@)[k] == y@[idx@[k] as int]);
        }
    }
    Ok((xb, yb))
}

/// Law: resampling is deterministic. The postcondition of
/// [`bootstrap_sample`] pins each output to `resample_spec`, a fixed function
/// of the pair and the replicate index; hence any two results obtained for
/// identical arguments are identical, element for element.
pub proof fn lemma_bootstrap_deterministic(
    x: Seq<i64>,
    y: Seq<i64>,
    rep: u64,
    a: (Seq<i64>, Seq<i64>),
    b: (Seq<i64>, Seq<i64>),
)
    requires
        a.0 == resample_spec(x, x.len(), rep),
        a.1 == resample_spec(y, y.len(), rep),
        b.0 == resample_spec(x, x.len(), rep),
        b.1 == resample_spec(y, y.len(), rep),
    ensures
        a == b,
{
}

} // verus!
