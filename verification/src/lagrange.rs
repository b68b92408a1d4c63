//! Lagrange interpolation at zero, in the scalar field and in both groups.
use crate::field::{
    congruent, inverse, lemma_inverse_congruent, lemma_mul_congruent, lemma_product_nonzero,
    reduce,
};
use crate::group::{GE1, GE2};
use crate::scalar::FE2;
use vstd::prelude::*;

verus! {

/// Why an interpolation was refused.
#[derive(Clone, Copy, Debug, PartialEq, Eq, Structural)]
pub enum InterpolationError {
    /// No sample was given.
    NoPoints,
    /// Two samples share an evaluation point, as elements of the scalar field.
    RepeatedPoint,
}

/// The product of the evaluation points other than the `j`-th, among the first `k`.
pub open spec fn numerator(xs: Seq<int>, j: int, k: int) -> int
    decreases k,
{
    if k <= 0 {
        1
    } else if k - 1 == j {
        numerator(xs, j, k - 1)
    } else {
        numerator(xs, j, k - 1) * xs[k - 1]
    }
}

/// The product of the differences between each evaluation point other than
/// the `j`-th, among the first `k`, and the `j`-th.
pub open spec fn denominator(xs: Seq<int>, j: int, k: int) -> int
    decreases k,
{
    if k <= 0 {
        1
    } else if k - 1 == j {
        denominator(xs, j, k - 1)
    } else {
        denominator(xs, j, k - 1) * (xs[k - 1] - xs[j])
    }
}

/// The value at zero of the `j`-th Lagrange basis polynomial for the points `xs`.
pub open spec fn coefficient(xs: Seq<int>, j: int) -> int {
    reduce(numerator(xs, j, xs.len() as int) * inverse(denominator(xs, j, xs.len() as int)))
}

/// The sum of the first `k` values, each weighted by its coefficient.
pub open spec fn weighted_sum(xs: Seq<int>, ys: Seq<int>, k: int) -> int
    decreases k,
{
    if k <= 0 {
        0
    } else {
        weighted_sum(xs, ys, k - 1) + coefficient(xs, k - 1) * ys[k - 1]
    }
}

/// The value at zero of the polynomial of least degree through the samples `(xs[i], ys[i])`.
pub open spec fn interpolate_at_zero(xs: Seq<int>, ys: Seq<int>) -> int {
    reduce(weighted_sum(xs, ys, xs.len() as int))
}

/// No two evaluation points stand for the same field element.
pub open spec fn distinct_points(xs: Seq<int>) -> bool {
    forall|i: int, j: int| 0 <= i < xs.len() && 0 <= j < xs.len() && i != j ==> !congruent(xs[i], xs[j])
}

/// The evaluation points as mathematical integers.
pub open spec fn abscissas(points: Seq<usize>) -> Seq<int> {
    Seq::new(points.len(), |i: int| points[i] as int)
}

/// The outcome that the evaluation points alone decide: an error, or none.
pub open spec fn points_error(xs: Seq<int>) -> Option<InterpolationError> {
    if xs.len() == 0 {
        Some(InterpolationError::NoPoints)
    } else if !distinct_points(xs) {
        Some(InterpolationError::RepeatedPoint)
    } else {
        None
    }
}

fn field_points(points: &Vec<usize>) -> (xs: Vec<FE2>)
    ensures
        xs.len() == points.len(),
        forall|i: int| 0 <= i < xs.len() ==> (#[trigger] xs[i])@ == reduce(points[i] as int),
{
    let mut xs: Vec<FE2> = Vec::new();
    let mut i: usize = 0;
    while i < points.len()
        invariant
            i <= points.len(),
            xs.len() == i,
            forall|m: int| 0 <= m < i ==> (#[trigger] xs[m])@ == reduce(points[m] as int),
        decreases points.len() - i,
    {
        xs.push(FE2::from_u64(points[i] as u64));
        i = i + 1;
    }
    xs
}

/// The coefficient of the `j`-th point, or `None` where another point repeats it.
fn coefficient_at(points: &Vec<usize>, xs: &Vec<FE2>, j: usize) -> (r: Option<FE2>)
    requires
        xs.len() == points.len(),
        j < xs.len(),
        forall|i: int| 0 <= i < xs.len() ==> (#[trigger] xs[i])@ == reduce(points[i] as int),
    ensures
        r is None <==> exists|m: int|
            0 <= m < points.len() && m != j && congruent(
                #[trigger] abscissas(points@)[m],
                abscissas(points@)[j as int],
            ),
        r matches Some(c) ==> c@ == coefficient(abscissas(points@), j as int),
{
    let ghost pts = abscissas(points@);
    let xj: FE2 = xs[j];
    let mut num: FE2 = FE2::one();
    let mut den: FE2 = FE2::one();
    let mut m: usize = 0;
    while m < xs.len()
        invariant
            m <= xs.len(),
            xs.len() == points.len(),
            j < xs.len(),
            pts == abscissas(points@),
            xj@ == reduce(pts[j as int]),
            forall|i: int| 0 <= i < xs.len() ==> (#[trigger] xs[i])@ == reduce(points[i] as int),
            forall|i: int| 0 <= i < m && i != j ==> !congruent(#[trigger] pts[i], pts[j as int]),
            num@ == reduce(numerator(pts, j as int, m as int)),
            den@ == reduce(denominator(pts, j as int, m as int)),
            den@ != 0,
        decreases xs.len() - m,
    {
        if m != j {
            let xm: FE2 = xs[m];
            let diff: FE2 = xm.sub(&xj);
            assert(xm@ == reduce(pts[m as int]));
            assert(diff@ == reduce(pts[m as int] - pts[j as int]));
            if diff.is_zero() {
                assert(congruent(pts[m as int], pts[j as int]));
                return None;
            }
            proof {
                let n = numerator(pts, j as int, m as int);
                let d = denominator(pts, j as int, m as int);
                lemma_mul_congruent(num@, n, xm@, pts[m as int]);
                lemma_mul_congruent(den@, d, diff@, pts[m as int] - pts[j as int]);
                lemma_product_nonzero(d, pts[m as int] - pts[j as int]);
            }
            num = num.mul(&xm);
            den = den.mul(&diff);
        }
        m = m + 1;
    }
    let ghost n = numerator(pts, j as int, pts.len() as int);
    let ghost d = denominator(pts, j as int, pts.len() as int);
    match den.invert() {
        Some(inv) => {
            proof {
                lemma_inverse_congruent(d, den@);
                lemma_mul_congruent(num@, n, inv@, inverse(d));
            }
            Some(num.mul(&inv))
        },
        None => None,
    }
}

/// The Lagrange coefficients at zero for the given evaluation points, one per
/// point and in their order.
///
/// Fails where there is no point, or where two points stand for the same field
/// element, which would make a denominator zero.
pub fn lagrange_coefficients(points: &Vec<usize>) -> (r: Result<Vec<FE2>, InterpolationError>)
    ensures
        match r {
            Ok(c) => {
                &&& points_error(abscissas(points@)) is None
                &&& c.len() == points.len()
                &&& forall|j: int|
                    0 <= j < c.len() ==> (#[trigger] c[j])@ == coefficient(abscissas(points@), j)
            },
            Err(e) => points_error(abscissas(points@)) == Some(e),
        },
{
    let ghost pts = abscissas(points@);
    if points.len() == 0 {
        return Err(InterpolationError::NoPoints);
    }
    let xs: Vec<FE2> = field_points(points);
    let mut coefficients: Vec<FE2> = Vec::new();
    let mut j: usize = 0;
    while j < xs.len()
        invariant
            j <= xs.len(),
            xs.len() == points.len(),
            pts == abscissas(points@),
            coefficients.len() == j,
            forall|i: int| 0 <= i < xs.len() ==> (#[trigger] xs[i])@ == reduce(points[i] as int),
            forall|i: int, m: int|
                0 <= i < j && 0 <= m < pts.len() && m != i ==> !congruent(
                    #[trigger] pts[m],
                    #[trigger] pts[i],
                ),
            forall|i: int|
                0 <= i < j ==> (#[trigger] coefficients[i])@ == coefficient(pts, i),
        decreases xs.len() - j,
    {
        match coefficient_at(points, &xs, j) {
            Some(c) => {
                coefficients.push(c);
            },
            None => {
                return Err(InterpolationError::RepeatedPoint);
            },
        }
        j = j + 1;
    }
    Ok(coefficients)
}

/// The evaluation points of a list of samples, as mathematical integers.
pub open spec fn sample_points<T>(samples: Seq<(usize, T)>) -> Seq<int> {
    Seq::new(samples.len(), |i: int| samples[i].0 as int)
}

/// The values of a list of samples in the scalar field.
pub open spec fn scalar_values(samples: Seq<(usize, FE2)>) -> Seq<int> {
    Seq::new(samples.len(), |i: int| samples[i].1@)
}

/// The values of a list of samples in the group of public keys.
pub open spec fn public_values(samples: Seq<(usize, GE2)>) -> Seq<int> {
    Seq::new(samples.len(), |i: int| samples[i].1@)
}

/// The values of a list of samples in the group of signatures.
pub open spec fn signature_values(samples: Seq<(usize, GE1)>) -> Seq<int> {
    Seq::new(samples.len(), |i: int| samples[i].1@)
}

fn points_of<T>(samples: &Vec<(usize, T)>) -> (points: Vec<usize>)
    ensures
        abscissas(points@) == sample_points(samples@),
{
    let mut points: Vec<usize> = Vec::new();
    let mut i: usize = 0;
    while i < samples.len()
        invariant
            i <= samples.len(),
            points.len() == i,
            forall|m: int| 0 <= m < i ==> #[trigger] points[m] == samples[m].0,
        decreases samples.len() - i,
    {
        points.push(samples[i].0);
        i = i + 1;
    }
    assert(abscissas(points@) =~= sample_points(samples@));
    points
}

/// Interpolates scalars: the value at zero of the polynomial of least degree
/// that takes, at each sample's evaluation point, the sample's value.
pub fn lagrange_interpolate_f0_x(points: &Vec<(usize, FE2)>) -> (r: Result<
    FE2,
    InterpolationError,
>)
    ensures
        match r {
            Ok(v) => points_error(sample_points(points@)) is None && v@ == interpolate_at_zero(
                sample_points(points@),
                scalar_values(points@),
            ),
            Err(e) => points_error(sample_points(points@)) == Some(e),
        },
{
    let ghost xs = sample_points(points@);
    let ghost ys = scalar_values(points@);
    let coefficients: Vec<FE2> = match lagrange_coefficients(&points_of(points)) {
        Ok(c) => c,
        Err(e) => {
            return Err(e);
        },
    };
    let mut acc: FE2 = FE2::zero();
    let mut j: usize = 0;
    while j < points.len()
        invariant
            j <= points.len(),
            coefficients.len() == points.len(),
            xs == sample_points(points@),
            ys == scalar_values(points@),
            forall|i: int|
                0 <= i < coefficients.len() ==> (#[trigger] coefficients[i])@ == coefficient(xs, i),
            acc@ == reduce(weighted_sum(xs, ys, j as int)),
        decreases points.len() - j,
    {
        let term: FE2 = points[j].1.mul(&coefficients[j]);
        proof {
            assert(ys[j as int] * coefficient(xs, j as int) == coefficient(xs, j as int) * ys[j as int])
                by (nonlinear_arith);
        }
        acc = acc.add(&term);
        j = j + 1;
    }
    Ok(acc)
}

/// Interpolates public keys: the same weighted sum as for scalars, formed with
/// the group law and multiplication by a scalar.
#[allow(non_snake_case)]
pub fn lagrange_interpolate_f0_X(points: &Vec<(usize, GE2)>) -> (r: Result<
    GE2,
    InterpolationError,
>)
    ensures
        match r {
            Ok(v) => points_error(sample_points(points@)) is None && v@ == interpolate_at_zero(
                sample_points(points@),
                public_values(points@),
            ),
            Err(e) => points_error(sample_points(points@)) == Some(e),
        },
{
    let ghost xs = sample_points(points@);
    let ghost ys = public_values(points@);
    let coefficients: Vec<FE2> = match lagrange_coefficients(&points_of(points)) {
        Ok(c) => c,
        Err(e) => {
            return Err(e);
        },
    };
    let mut acc: GE2 = GE2::identity();
    let mut j: usize = 0;
    while j < points.len()
        invariant
            j <= points.len(),
            coefficients.len() == points.len(),
            xs == sample_points(points@),
            ys == public_values(points@),
            forall|i: int|
                0 <= i < coefficients.len() ==> (#[trigger] coefficients[i])@ == coefficient(xs, i),
            acc@ == reduce(weighted_sum(xs, ys, j as int)),
        decreases points.len() - j,
    {
        let term: GE2 = points[j].1.scalar_mul(&coefficients[j]);
        proof {
            assert(ys[j as int] * coefficient(xs, j as int) == coefficient(xs, j as int) * ys[j as int])
                by (nonlinear_arith);
        }
        acc = acc.add_point(&term);
        j = j + 1;
    }
    Ok(acc)
}

/// Interpolates signatures: the same weighted sum as for scalars, formed with
/// the group law and multiplication by a scalar.
pub fn lagrange_interpolate_f0_sig(points: &Vec<(usize, GE1)>) -> (r: Result<
    GE1,
    InterpolationError,
>)
    ensures
        match r {
            Ok(v) => points_error(sample_points(points@)) is None && v@ == interpolate_at_zero(
                sample_points(points@),
                signature_values(points@),
            ),
            Err(e) => points_error(sample_points(points@)) == Some(e),
        },
{
    let ghost xs = sample_points(points@);
    let ghost ys = signature_values(points@);
    let coefficients: Vec<FE2> = match lagrange_coefficients(&points_of(points)) {
        Ok(c) => c,
        Err(e) => {
            return Err(e);
        },
    };
    let mut acc: GE1 = GE1::identity();
    let mut j: usize = 0;
    while j < points.len()
        invariant
            j <= points.len(),
            coefficients.len() == points.len(),
            xs == sample_points(points@),
            ys == signature_values(points@),
            forall|i: int|
                0 <= i < coefficients.len() ==> (#[trigger] coefficients[i])@ == coefficient(xs, i),
            acc@ == reduce(weighted_sum(xs, ys, j as int)),
        decreases points.len() - j,
    {
        let term: GE1 = points[j].1.scalar_mul(&coefficients[j]);
        proof {
            assert(ys[j as int] * coefficient(xs, j as int) == coefficient(xs, j as int) * ys[j as int])
                by (nonlinear_arith);
        }
        acc = acc.add_point(&term);
        j = j + 1;
    }
    Ok(acc)
}

} // verus!
