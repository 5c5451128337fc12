use vstd::prelude::*;

use crate::units::{is_unit, unit_seq, SCALE};

verus! {

/// A usable interpolation domain: every value strictly below the next.
pub open spec fn strictly_increasing(s: Seq<i64>) -> bool {
    forall|a: int, b: int| 0 <= a < b < s.len() ==> s[a] < s[b]
}

/// The linear blend of the segment `[x0, x1]` at query `xi`: exact at both
/// segment ends, since the numerator degenerates to `y0 * (x1 - x0)` or
/// `y1 * (x1 - x0)` there.
pub open spec fn blend_at(x0: i64, x1: i64, y0: i64, y1: i64, xi: i64) -> i64 {
    ((y0 * (x1 - xi) + y1 * (xi - x0)) / (x1 - x0) as int) as i64
}

/// Piecewise-linear interpolation of `ys` over the strictly increasing
/// domain `xs`, clamping to the nearest endpoint outside the covered range —
/// the one out-of-range policy of this engine.
pub open spec fn interp_spec(xs: Seq<i64>, ys: Seq<i64>, xi: i64) -> i64
    decreases xs.len(),
{
    let n = xs.len() as int;
    if n <= 1 {
        ys[0]
    } else if xi >= xs[n - 1] {
        ys[n - 1]
    } else if xi >= xs[n - 2] {
        blend_at(xs[n - 2], xs[n - 1], ys[n - 2], ys[n - 1], xi)
    } else {
        interp_spec(xs.take(n - 1), ys.take(n - 1), xi)
    }
}

/// The blend of a unit segment is a unit value, and its intermediate
/// products stay far inside `i64`.
proof fn lemma_blend_unit(x0: i64, x1: i64, y0: i64, y1: i64, xi: i64)
    requires
        0 <= x0 <= xi < x1 <= SCALE,
        is_unit(y0),
        is_unit(y1),
    ensures
        is_unit(blend_at(x0, x1, y0, y1, xi)),
        0 <= y0 * (x1 - xi) <= SCALE * SCALE,
        0 <= y1 * (xi - x0) <= SCALE * SCALE,
        0 <= y0 * (x1 - xi) + y1 * (xi - x0) <= SCALE * (x1 - x0),
        xi == x0 ==> blend_at(x0, x1, y0, y1, xi) == y0,
{
    let d = (x1 - x0) as int;
    let num = y0 * (x1 - xi) + y1 * (xi - x0);
    assert(0 <= y0 * (x1 - xi) <= SCALE * (x1 - xi)) by {
        vstd::arithmetic::mul::lemma_mul_nonnegative(y0 as int, x1 - xi);
        vstd::arithmetic::mul::lemma_mul_inequality(y0 as int, SCALE as int, x1 - xi);
        vstd::arithmetic::mul::lemma_mul_is_commutative(y0 as int, x1 - xi);
        vstd::arithmetic::mul::lemma_mul_is_commutative(SCALE as int, x1 - xi);
    }
    assert(SCALE * (x1 - xi) <= SCALE * SCALE) by {
        vstd::arithmetic::mul::lemma_mul_inequality(x1 - xi, SCALE as int, SCALE as int);
        vstd::arithmetic::mul::lemma_mul_is_commutative(SCALE as int, x1 - xi);
    }
    assert(0 <= y1 * (xi - x0) <= SCALE * (xi - x0)) by {
        vstd::arithmetic::mul::lemma_mul_nonnegative(y1 as int, xi - x0);
        vstd::arithmetic::mul::lemma_mul_inequality(y1 as int, SCALE as int, xi - x0);
        vstd::arithmetic::mul::lemma_mul_is_commutative(y1 as int, xi - x0);
        vstd::arithmetic::mul::lemma_mul_is_commutative(SCALE as int, xi - x0);
    }
    assert(SCALE * (xi - x0) <= SCALE * SCALE) by {
        vstd::arithmetic::mul::lemma_mul_inequality(xi - x0, SCALE as int, SCALE as int);
        vstd::arithmetic::mul::lemma_mul_is_commutative(SCALE as int, xi - x0);
    }
    assert(num <= SCALE * d) by {
        vstd::arithmetic::mul::lemma_mul_is_distributive_add(SCALE as int, x1 - xi, xi - x0);
    }
    vstd::arithmetic::div_mod::lemma_div_pos_is_pos(num, d);
    vstd::arithmetic::div_mod::lemma_div_is_ordered(num, SCALE * d, d);
    vstd::arithmetic::div_mod::lemma_div_multiples_vanish(SCALE as int, d);
    if xi == x0 {
        assert(y1 * (xi - x0) == 0) by {
            vstd::arithmetic::mul::lemma_mul_by_zero_is_zero(y1 as int);
        }
        assert(num == y0 * d);
        assert(y0 * d / d == y0) by {
            vstd::arithmetic::div_mod::lemma_div_multiples_vanish(y0 as int, d);
            vstd::arithmetic::mul::lemma_mul_is_commutative(y0 as int, d);
        }
    }
}

/// Interpolation over a unit domain with unit values yields a unit value.
proof fn lemma_interp_unit(xs: Seq<i64>, ys: Seq<i64>, xi: i64)
    requires
        xs.len() == ys.len(),
        xs.len() >= 1,
        strictly_increasing(xs),
        unit_seq(xs),
        unit_seq(ys),
    ensures
        is_unit(interp_spec(xs, ys, xi)),
    decreases xs.len(),
{
    let n = xs.len() as int;
    if n <= 1 {
    } else if xi >= xs[n - 1] {
    } else if xi >= xs[n - 2] {
        lemma_blend_unit(xs[n - 2], xs[n - 1], ys[n - 2], ys[n - 1], xi);
    } else {
        assert(strictly_increasing(xs.take(n - 1)));
        assert(unit_seq(xs.take(n - 1))) by {
            assert(forall|i: int| 0 <= i < n - 1 ==> xs.take(n - 1)[i] == xs[i]);
        }
        assert(unit_seq(ys.take(n - 1))) by {
            assert(forall|i: int| 0 <= i < n - 1 ==> ys.take(n - 1)[i] == ys[i]);
        }
        lemma_interp_unit(xs.take(n - 1), ys.take(n - 1), xi);
    }
}

/// The value of a query that falls inside segment `j`.
proof fn lemma_interp_segment(xs: Seq<i64>, ys: Seq<i64>, xi: i64, j: int)
    requires
        xs.len() == ys.len(),
        strictly_increasing(xs),
        0 <= j < xs.len() - 1,
        xs[j] <= xi < xs[j + 1],
    ensures
        interp_spec(xs, ys, xi) == blend_at(xs[j], xs[j + 1], ys[j], ys[j + 1], xi),
    decreases xs.len(),
{
    let n = xs.len() as int;
    if j == n - 2 {
        assert(xi < xs[n - 1]);
    } else {
        assert(xs[j + 1] <= xs[n - 2]);
        assert(xi < xs[n - 2]);
        assert(strictly_increasing(xs.take(n - 1)));
        lemma_interp_segment(xs.take(n - 1), ys.take(n - 1), xi, j);
    }
}

/// The value of a query at or below the smallest domain value: the clamped
/// left endpoint.
proof fn lemma_interp_below(xs: Seq<i64>, ys: Seq<i64>, xi: i64)
    requires
        xs.len() == ys.len(),
        xs.len() >= 1,
        strictly_increasing(xs),
        unit_seq(xs),
        unit_seq(ys),
        xi <= xs[0],
    ensures
        interp_spec(xs, ys, xi) == ys[0],
    decreases xs.len(),
{
    let n = xs.len() as int;
    if n <= 1 {
    } else if n == 2 {
        if xi >= xs[1] {
            assert(xs[0] < xs[1]);
            assert(false);
        } else if xi >= xs[0] {
            assert(xi == xs[0]);
            lemma_blend_unit(xs[0], xs[1], ys[0], ys[1], xi);
        } else {
            assert(interp_spec(xs.take(1), ys.take(1), xi) == ys.take(1)[0]);
        }
    } else {
        assert(xs[0] < xs[n - 2] && xs[0] < xs[n - 1]);
        assert(strictly_increasing(xs.take(n - 1)));
        assert(unit_seq(xs.take(n - 1))) by {
            assert(forall|i: int| 0 <= i < n - 1 ==> xs.take(n - 1)[i] == xs[i]);
        }
        assert(unit_seq(ys.take(n - 1))) by {
            assert(forall|i: int| 0 <= i < n - 1 ==> ys.take(n - 1)[i] == ys[i]);
        }
        lemma_interp_below(xs.take(n - 1), ys.take(n - 1), xi);
    }
}

/// Law: interpolation is exact on the grid — querying at a domain value
/// returns the corresponding dependent value, with no averaging error.
pub proof fn lemma_interp_exact_at_grid(xs: Seq<i64>, ys: Seq<i64>, k: int)
    requires
        xs.len() == ys.len(),
        xs.len() >= 1,
        strictly_increasing(xs),
        unit_seq(xs),
        unit_seq(ys),
        0 <= k < xs.len(),
    ensures
        interp_spec(xs, ys, xs[k]) == ys[k],
{
    let n = xs.len() as int;
    if k == n - 1 {
        if n == 1 {
            lemma_interp_below(xs, ys, xs[0]);
        }
    } else {
        assert(xs[k] < xs[k + 1]);
        lemma_interp_segment(xs, ys, xs[k], k);
        lemma_blend_unit(xs[k], xs[k + 1], ys[k], ys[k + 1], xs[k]);
    }
}

/// Piecewise-linear interpolation of `ys` over the strictly increasing unit
/// domain `xs`, clamping to the nearest endpoint outside the covered range.
pub fn linear_interpolate(xs: &Vec<i64>, ys: &Vec<i64>, xi: i64) -> (r: i64)
    requires
        xs@.len() == ys@.len(),
        xs@.len() >= 1,
        strictly_increasing(xs@),
        unit_seq(xs@),
        unit_seq(ys@),
    ensures
        r == interp_spec(xs@, ys@, xi),
        is_unit(r),
{
    proof {
        lemma_interp_unit(xs@, ys@, xi);
    }
    let n = xs.len();
    if xi >= xs[n - 1] {
        // with one point the spec returns ys[0] outright; otherwise this is
        // the clamp above the covered range
        return ys[n - 1];
    }
    if xi <= xs[0] {
        proof {
            lemma_interp_below(xs@, ys@, xi);
        }
        return ys[0];
    }
    // here n >= 2 and xs[0] < xi < xs[n-1]; find the segment that holds xi
    let mut j: usize = 0;
    while j + 2 < n && xi >= xs[j + 1]
        invariant
            n == xs@.len(),
            2 <= n,
            0 <= j < n - 1,
            xs@[j as int] <= xi,
            strictly_increasing(xs@),
            xi < xs@[n - 1],
        decreases n - j,
    {
        j += 1;
    }
    proof {
        if j + 2 < n {
            assert(xi < xs@[j + 1]);
        } else {
            assert(j == n - 2);
            assert(xi < xs@[j + 1]);
        }
        lemma_interp_segment(xs@, ys@, xi, j as int);
        lemma_blend_unit(xs@[j as int], xs@[j + 1], ys@[j as int], ys@[j + 1], xi);
    }
    let x0 = xs[j];
    let x1 = xs[j + 1];
    let y0 = ys[j];
    let y1 = ys[j + 1];
    (y0 * (x1 - xi) + y1 * (xi - x0)) / (x1 - x0)
}

} // verus!
