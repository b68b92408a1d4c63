//! Polynomials over the scalar field, given by their coefficients from the
//! constant term upwards.
use crate::field::{lemma_mul_congruent, reduce};
use crate::scalar::FE2;
use vstd::prelude::*;

verus! {

/// The value of the polynomial with the given coefficients at `x`.
pub open spec fn evaluate(coefficients: Seq<int>, x: int) -> int
    decreases coefficients.len(),
{
    if coefficients.len() == 0 {
        0
    } else {
        coefficients[0] + x * evaluate(coefficients.drop_first(), x)
    }
}

/// The residues that a list of scalars stands for.
pub open spec fn residues(scalars: Seq<FE2>) -> Seq<int> {
    Seq::new(scalars.len(), |i: int| scalars[i]@)
}

/// Evaluates a polynomial at a point of the scalar field, by Horner's rule.
pub fn evaluate_at(coefficients: &Vec<FE2>, x: &FE2) -> (r: FE2)
    ensures
        r@ == reduce(evaluate(residues(coefficients@), x@)),
{
    let ghost cs = residues(coefficients@);
    let mut acc: FE2 = FE2::zero();
    let mut i: usize = coefficients.len();
    while i > 0
        invariant
            i <= coefficients.len(),
            cs == residues(coefficients@),
            acc@ == reduce(evaluate(cs.subrange(i as int, cs.len() as int), x@)),
        decreases i,
    {
        i = i - 1;
        proof {
            let tail = cs.subrange(i as int + 1, cs.len() as int);
            let longer = cs.subrange(i as int, cs.len() as int);
            assert(longer.drop_first() == tail);
            assert(longer[0] == coefficients[i as int]@);
            lemma_mul_congruent(acc@, evaluate(tail, x@), x@, x@);
            assert(x@ * evaluate(tail, x@) == evaluate(tail, x@) * x@) by (nonlinear_arith);
        }
        acc = acc.mul(x).add(&coefficients[i]);
    }
    proof {
        assert(cs.subrange(0, cs.len() as int) == cs);
    }
    acc
}

} // verus!
