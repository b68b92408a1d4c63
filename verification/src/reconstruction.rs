//! Why interpolation at zero reconstructs what was shared: the coefficients
//! sum to one, the weighted sum is linear in the values, and the values of a
//! polynomial of small enough degree interpolate to its constant term.
use crate::field::{
    congruent, inverse, is_inverse, lemma_cancel, lemma_inverse_exists, lemma_inverse_of_product,
    lemma_inverse_unique, lemma_mul_congruent, lemma_product_nonzero, reduce,
};
use crate::lagrange::{coefficient, denominator, distinct_points, numerator, weighted_sum};
use crate::polynomial::evaluate;
use vstd::prelude::*;

verus! {

/// Numerator and denominator read only the points below `k` and the `j`-th.
proof fn lemma_products_of_equal_points(xs: Seq<int>, zs: Seq<int>, j: int, k: int)
    requires
        0 <= k <= xs.len(),
        k <= zs.len(),
        0 <= j < xs.len(),
        j < zs.len(),
        xs[j] == zs[j],
        forall|i: int| 0 <= i < k ==> xs[i] == zs[i],
    ensures
        numerator(xs, j, k) == numerator(zs, j, k),
        denominator(xs, j, k) == denominator(zs, j, k),
    decreases k,
{
    if k > 0 {
        lemma_products_of_equal_points(xs, zs, j, k - 1);
    }
}

/// Dropping the first point takes its factor out of numerator and denominator.
proof fn lemma_products_without_first(xs: Seq<int>, j: int, k: int)
    requires
        1 <= k <= xs.len(),
        1 <= j < xs.len(),
    ensures
        numerator(xs, j, k) == numerator(xs.drop_first(), j - 1, k - 1) * xs[0],
        denominator(xs, j, k) == denominator(xs.drop_first(), j - 1, k - 1) * (xs[0] - xs[j]),
    decreases k,
{
    let rest = xs.drop_first();
    if k == 1 {
        assert(numerator(xs, j, 0) == 1);
        assert(denominator(xs, j, 0) == 1);
    } else {
        lemma_products_without_first(xs, j, k - 1);
        assert(rest[k - 2] == xs[k - 1]);
        assert(rest[j - 1] == xs[j]);
        if k - 1 != j {
            let n = numerator(rest, j - 1, k - 2);
            let d = denominator(rest, j - 1, k - 2);
            assert((n * xs[0]) * xs[k - 1] == (n * xs[k - 1]) * xs[0]) by (nonlinear_arith);
            assert((d * (xs[0] - xs[j])) * (xs[k - 1] - xs[j]) == (d * (xs[k - 1] - xs[j])) * (xs[0]
                - xs[j])) by (nonlinear_arith);
        }
    }
}

/// With distinct points no denominator is a multiple of the order.
pub proof fn lemma_denominator_nonzero(xs: Seq<int>, j: int, k: int)
    requires
        distinct_points(xs),
        0 <= j < xs.len(),
        0 <= k <= xs.len(),
    ensures
        reduce(denominator(xs, j, k)) != 0,
    decreases k,
{
    if k > 0 {
        lemma_denominator_nonzero(xs, j, k - 1);
        if k - 1 != j {
            assert(!congruent(xs[k - 1], xs[j]));
            lemma_product_nonzero(denominator(xs, j, k - 1), xs[k - 1] - xs[j]);
        }
    }
}

/// A quotient whose numerator gains the factor `f` and whose denominator
/// gains the factor `g`, multiplied by `g`, is the old quotient multiplied by `f`.
proof fn lemma_quotient_gains_factors(n: int, d: int, f: int, g: int)
    requires
        reduce(d) != 0,
        reduce(g) != 0,
    ensures
        congruent(g * reduce((n * f) * inverse(d * g)), f * reduce(n * inverse(d))),
{
    let id = inverse(d);
    let ig = inverse(g);
    let both = inverse(d * g);
    lemma_inverse_exists(d);
    lemma_inverse_exists(g);
    lemma_inverse_of_product(d, g);
    lemma_mul_congruent(n * f, n * f, both, id * ig);
    lemma_mul_congruent(g, g, reduce((n * f) * both), (n * f) * (id * ig));
    assert(g * ((n * f) * (id * ig)) == (g * ig) * (f * (n * id))) by (nonlinear_arith);
    lemma_mul_congruent(g * ig, 1, f * (n * id), f * (n * id));
    lemma_mul_congruent(f, f, n * id, reduce(n * id));
}

/// The coefficient of a point among all points, times the distance from the
/// last point, is its coefficient among all but the last, times the last point.
proof fn lemma_coefficient_without_last(xs: Seq<int>, j: int)
    requires
        distinct_points(xs),
        xs.len() >= 2,
        0 <= j < xs.len() - 1,
    ensures
        congruent(
            (xs.last() - xs[j]) * coefficient(xs, j),
            xs.last() * coefficient(xs.drop_last(), j),
        ),
{
    let n = xs.len() as int;
    let shorter = xs.drop_last();
    lemma_products_of_equal_points(xs, shorter, j, n - 1);
    assert(distinct_points(shorter)) by {
        assert forall|a: int, b: int|
            0 <= a < shorter.len() && 0 <= b < shorter.len() && a != b implies !congruent(
            shorter[a],
            shorter[b],
        ) by {
            assert(!congruent(xs[a], xs[b]));
        }
    }
    lemma_denominator_nonzero(shorter, j, n - 1);
    assert(!congruent(xs[n - 1], xs[j]));
    lemma_quotient_gains_factors(
        numerator(shorter, j, n - 1),
        denominator(shorter, j, n - 1),
        xs[n - 1],
        xs[n - 1] - xs[j],
    );
}

/// The coefficient of a point among all points, times the distance from the
/// first point, is its coefficient among all but the first, times the first point.
proof fn lemma_coefficient_without_first(xs: Seq<int>, j: int)
    requires
        distinct_points(xs),
        xs.len() >= 2,
        1 <= j < xs.len(),
    ensures
        congruent(
            (xs[0] - xs[j]) * coefficient(xs, j),
            xs[0] * coefficient(xs.drop_first(), j - 1),
        ),
{
    let n = xs.len() as int;
    let rest = xs.drop_first();
    lemma_products_without_first(xs, j, n);
    lemma_distinct_without_first(xs);
    lemma_denominator_nonzero(rest, j - 1, n - 1);
    assert(!congruent(xs[0], xs[j]));
    lemma_quotient_gains_factors(
        numerator(rest, j - 1, n - 1),
        denominator(rest, j - 1, n - 1),
        xs[0],
        xs[0] - xs[j],
    );
}

/// Distinct points stay distinct without the first.
proof fn lemma_distinct_without_first(xs: Seq<int>)
    requires
        distinct_points(xs),
        xs.len() >= 1,
    ensures
        distinct_points(xs.drop_first()),
{
    let rest = xs.drop_first();
    assert forall|a: int, b: int|
        0 <= a < rest.len() && 0 <= b < rest.len() && a != b implies !congruent(
        rest[a],
        rest[b],
    ) by {
        assert(!congruent(xs[a + 1], xs[b + 1]));
    }
}

/// Distinct points stay distinct without the last.
proof fn lemma_distinct_without_last(xs: Seq<int>)
    requires
        distinct_points(xs),
        xs.len() >= 1,
    ensures
        distinct_points(xs.drop_last()),
{
    let shorter = xs.drop_last();
    assert forall|a: int, b: int|
        0 <= a < shorter.len() && 0 <= b < shorter.len() && a != b implies !congruent(
        shorter[a],
        shorter[b],
    ) by {
        assert(!congruent(xs[a], xs[b]));
    }
}

/// The weighted sum is linear in the values: where each value is congruent
/// to `c` times one value plus `d` times another, so are the sums.
pub proof fn lemma_weighted_sum_linear(
    xs: Seq<int>,
    ys: Seq<int>,
    us: Seq<int>,
    vs: Seq<int>,
    c: int,
    d: int,
    k: int,
)
    requires
        0 <= k <= ys.len(),
        k <= us.len(),
        k <= vs.len(),
        forall|i: int| 0 <= i < k ==> congruent(#[trigger] ys[i], c * us[i] + d * vs[i]),
    ensures
        congruent(
            weighted_sum(xs, ys, k),
            c * weighted_sum(xs, us, k) + d * weighted_sum(xs, vs, k),
        ),
    decreases k,
{
    if k > 0 {
        lemma_weighted_sum_linear(xs, ys, us, vs, c, d, k - 1);
        let w = coefficient(xs, k - 1);
        assert(congruent(ys[k - 1], c * us[k - 1] + d * vs[k - 1]));
        lemma_mul_congruent(w, w, ys[k - 1], c * us[k - 1] + d * vs[k - 1]);
        let su = weighted_sum(xs, us, k - 1);
        let sv = weighted_sum(xs, vs, k - 1);
        assert(c * su + d * sv + w * (c * us[k - 1] + d * vs[k - 1]) == c * (su + w * us[k - 1])
            + d * (sv + w * vs[k - 1])) by (nonlinear_arith);
    }
}

/// Each value multiplied by the distance of its point from `p`.
pub open spec fn times_distance(xs: Seq<int>, ys: Seq<int>, p: int) -> Seq<int> {
    Seq::new(ys.len(), |j: int| (p - xs[j]) * ys[j])
}

/// The value one at each of `n` points.
pub open spec fn ones(n: nat) -> Seq<int> {
    Seq::new(n, |j: int| 1int)
}

/// The values of a polynomial at the given points.
pub open spec fn values(coefficients: Seq<int>, xs: Seq<int>) -> Seq<int> {
    Seq::new(xs.len(), |j: int| evaluate(coefficients, xs[j]))
}

proof fn lemma_partial_sum_without_last(xs: Seq<int>, ys: Seq<int>, k: int)
    requires
        distinct_points(xs),
        xs.len() >= 2,
        ys.len() == xs.len(),
        0 <= k <= xs.len() - 1,
    ensures
        congruent(
            weighted_sum(xs, times_distance(xs, ys, xs.last()), k),
            xs.last() * weighted_sum(xs.drop_last(), ys.drop_last(), k),
        ),
    decreases k,
{
    if k > 0 {
        lemma_partial_sum_without_last(xs, ys, k - 1);
        let b = xs.last();
        let j = k - 1;
        let w = coefficient(xs, j);
        let w2 = coefficient(xs.drop_last(), j);
        let y = ys[j];
        lemma_coefficient_without_last(xs, j);
        lemma_mul_congruent((b - xs[j]) * w, b * w2, y, y);
        assert(w * ((b - xs[j]) * y) == ((b - xs[j]) * w) * y) by (nonlinear_arith);
        let rest = weighted_sum(xs.drop_last(), ys.drop_last(), k - 1);
        assert(b * rest + (b * w2) * y == b * (rest + w2 * y)) by (nonlinear_arith);
        assert(ys.drop_last()[j] == y);
        assert(times_distance(xs, ys, b)[j] == (b - xs[j]) * y);
    }
}

/// The sum of the values, each multiplied by the distance of its point from
/// the last point, is the last point times the sum over all but the last.
proof fn lemma_sum_without_last(xs: Seq<int>, ys: Seq<int>)
    requires
        distinct_points(xs),
        xs.len() >= 2,
        ys.len() == xs.len(),
    ensures
        congruent(
            weighted_sum(xs, times_distance(xs, ys, xs.last()), xs.len() as int),
            xs.last() * weighted_sum(xs.drop_last(), ys.drop_last(), xs.len() - 1),
        ),
{
    let n = xs.len() as int;
    lemma_partial_sum_without_last(xs, ys, n - 1);
    let zs = times_distance(xs, ys, xs.last());
    assert(zs[n - 1] == 0) by {
        assert(zs[n - 1] == (xs.last() - xs[n - 1]) * ys[n - 1]);
        assert((xs.last() - xs[n - 1]) * ys[n - 1] == 0) by (nonlinear_arith)
            requires
                xs.last() == xs[n - 1],
        ;
    }
    assert(coefficient(xs, n - 1) * zs[n - 1] == 0) by (nonlinear_arith)
        requires
            zs[n - 1] == 0,
    ;
}

/// The sum of the values, each multiplied by the distance of its point from
/// the first point, is the first point times the sum over all but the first.
proof fn lemma_sum_without_first(xs: Seq<int>, ys: Seq<int>, k: int)
    requires
        distinct_points(xs),
        xs.len() >= 2,
        ys.len() == xs.len(),
        1 <= k <= xs.len(),
    ensures
        congruent(
            weighted_sum(xs, times_distance(xs, ys, xs[0]), k),
            xs[0] * weighted_sum(xs.drop_first(), ys.drop_first(), k - 1),
        ),
    decreases k,
{
    let a = xs[0];
    let zs = times_distance(xs, ys, a);
    if k == 1 {
        assert(zs[0] == (a - xs[0]) * ys[0]);
        assert((a - xs[0]) * ys[0] == 0) by (nonlinear_arith)
            requires
                a == xs[0],
        ;
        assert(coefficient(xs, 0) * zs[0] == 0) by (nonlinear_arith)
            requires
                zs[0] == 0,
        ;
        assert(weighted_sum(xs, zs, 0) == 0);
        assert(weighted_sum(xs.drop_first(), ys.drop_first(), 0) == 0);
        assert(a * 0 == 0);
    } else {
        lemma_sum_without_first(xs, ys, k - 1);
        let j = k - 1;
        let w = coefficient(xs, j);
        let w2 = coefficient(xs.drop_first(), j - 1);
        let y = ys[j];
        lemma_coefficient_without_first(xs, j);
        lemma_mul_congruent((a - xs[j]) * w, a * w2, y, y);
        assert(w * ((a - xs[j]) * y) == ((a - xs[j]) * w) * y) by (nonlinear_arith);
        let rest = weighted_sum(xs.drop_first(), ys.drop_first(), k - 2);
        assert(a * rest + (a * w2) * y == a * (rest + w2 * y)) by (nonlinear_arith);
        assert(ys.drop_first()[j - 1] == y);
        assert(zs[j] == (a - xs[j]) * y);
    }
}

/// The Lagrange coefficients of distinct points sum to one.
pub proof fn lemma_coefficients_sum_to_one(xs: Seq<int>)
    requires
        distinct_points(xs),
        xs.len() >= 1,
    ensures
        congruent(weighted_sum(xs, ones(xs.len()), xs.len() as int), 1),
    decreases xs.len(),
{
    let n = xs.len() as int;
    let unit = ones(xs.len());
    if n == 1 {
        assert(numerator(xs, 0, 1) == 1) by {
            assert(numerator(xs, 0, 0) == 1);
        }
        assert(denominator(xs, 0, 1) == 1) by {
            assert(denominator(xs, 0, 0) == 1);
        }
        assert(is_inverse(1, 1));
        lemma_inverse_exists(1);
        lemma_inverse_unique(1, 1, inverse(1));
        assert(coefficient(xs, 0) == 1);
        assert(weighted_sum(xs, unit, 0) == 0);
        assert(weighted_sum(xs, unit, 1) == 0 + coefficient(xs, 0) * unit[0]);
    } else {
        let a = xs[0];
        let b = xs.last();
        let from_first = times_distance(xs, unit, a);
        let from_last = times_distance(xs, unit, b);
        let spread = Seq::new(xs.len(), |j: int| (a - b) * 1);
        // The sum of the distances from the first point is the first point.
        lemma_distinct_without_first(xs);
        lemma_coefficients_sum_to_one(xs.drop_first());
        lemma_sum_without_first(xs, unit, n);
        assert(unit.drop_first() =~= ones(xs.drop_first().len()));
        lemma_mul_congruent(a, a, weighted_sum(xs.drop_first(), unit.drop_first(), n - 1), 1);
        // The sum of the distances from the last point is the last point.
        lemma_distinct_without_last(xs);
        lemma_coefficients_sum_to_one(xs.drop_last());
        lemma_sum_without_last(xs, unit);
        assert(unit.drop_last() =~= ones(xs.drop_last().len()));
        lemma_mul_congruent(b, b, weighted_sum(xs.drop_last(), unit.drop_last(), n - 1), 1);
        // Their difference is the distance between the two points at every point.
        assert forall|i: int| 0 <= i < n implies congruent(
            #[trigger] spread[i],
            1 * from_first[i] + (-1) * from_last[i],
        ) by {
            let one = unit[i];
            assert(from_first[i] == (a - xs[i]) * one);
            assert(from_last[i] == (b - xs[i]) * one);
            assert((a - xs[i]) * one == a - xs[i] && (b - xs[i]) * one == b - xs[i])
                by (nonlinear_arith)
                requires
                    one == 1,
            ;
        }
        lemma_weighted_sum_linear(xs, spread, from_first, from_last, 1, -1, n);
        assert forall|i: int| 0 <= i < n implies congruent(
            #[trigger] spread[i],
            (a - b) * unit[i] + 0 * unit[i],
        ) by {
            let one = unit[i];
            assert((a - b) * one == (a - b) * 1) by (nonlinear_arith)
                requires
                    one == 1,
            ;
        }
        lemma_weighted_sum_linear(xs, spread, unit, unit, a - b, 0, n);
        let total = weighted_sum(xs, unit, n);
        assert(congruent((a - b) * total, (a - b) * 1));
        assert(!congruent(xs[0], xs[n - 1]));
        lemma_cancel(a - b, total, 1);
    }
}

/// The values of a polynomial with no more coefficients than there are
/// points, at distinct points, interpolate to its constant term.
pub proof fn lemma_polynomial_reconstructed(xs: Seq<int>, coefficients: Seq<int>)
    requires
        distinct_points(xs),
        xs.len() >= 1,
        coefficients.len() <= xs.len(),
    ensures
        congruent(
            weighted_sum(xs, values(coefficients, xs), xs.len() as int),
            evaluate(coefficients, 0),
        ),
    decreases coefficients.len(),
{
    let n = xs.len() as int;
    let ys = values(coefficients, xs);
    let unit = ones(xs.len());
    if coefficients.len() == 0 {
        assert forall|i: int| 0 <= i < n implies congruent(
            #[trigger] ys[i],
            0 * unit[i] + 0 * unit[i],
        ) by {
            assert(ys[i] == evaluate(coefficients, xs[i]));
        }
        lemma_weighted_sum_linear(xs, ys, unit, unit, 0, 0, n);
    } else {
        let c0 = coefficients[0];
        let higher = coefficients.drop_first();
        let gs = values(higher, xs);
        let shifted = Seq::new(xs.len(), |j: int| xs[j] * gs[j]);
        assert(evaluate(coefficients, 0) == c0 + 0 * evaluate(higher, 0));
        lemma_coefficients_sum_to_one(xs);
        lemma_polynomial_reconstructed(xs, higher);
        // The values split into the constant term and the rest times the point.
        assert forall|i: int| 0 <= i < n implies congruent(
            #[trigger] ys[i],
            c0 * unit[i] + 1 * shifted[i],
        ) by {
            assert(ys[i] == evaluate(coefficients, xs[i]));
            assert(gs[i] == evaluate(higher, xs[i]));
            assert(unit[i] == 1);
            assert(shifted[i] == xs[i] * gs[i]);
        }
        lemma_weighted_sum_linear(xs, ys, unit, shifted, c0, 1, n);
        lemma_mul_congruent(c0, c0, weighted_sum(xs, unit, n), 1);
        if n == 1 {
            assert(higher.len() == 0);
            assert forall|i: int| 0 <= i < n implies congruent(
                #[trigger] shifted[i],
                0 * unit[i] + 0 * unit[i],
            ) by {
                assert(gs[i] == evaluate(higher, xs[i]));
                assert(shifted[i] == xs[i] * gs[i]);
            }
            lemma_weighted_sum_linear(xs, shifted, unit, unit, 0, 0, n);
        } else {
            // The rest times the point sums to nothing: the last point times
            // the rest, less the rest times the distance from the last point.
            let b = xs.last();
            let from_last = times_distance(xs, gs, b);
            assert forall|i: int| 0 <= i < n implies congruent(
                #[trigger] shifted[i],
                b * gs[i] + (-1) * from_last[i],
            ) by {
                assert(shifted[i] == xs[i] * gs[i]);
                assert(from_last[i] == (b - xs[i]) * gs[i]);
                assert(xs[i] * gs[i] == b * gs[i] + (-1) * ((b - xs[i]) * gs[i]))
                    by (nonlinear_arith);
            }
            lemma_weighted_sum_linear(xs, shifted, gs, from_last, b, -1, n);
            lemma_distinct_without_last(xs);
            lemma_polynomial_reconstructed(xs.drop_last(), higher);
            lemma_sum_without_last(xs, gs);
            assert(gs.drop_last() =~= values(higher, xs.drop_last()));
            let g0 = evaluate(higher, 0);
            lemma_mul_congruent(b, b, weighted_sum(xs.drop_last(), gs.drop_last(), n - 1), g0);
            lemma_mul_congruent(b, b, weighted_sum(xs, gs, n), g0);
        }
    }
}

} // verus!
