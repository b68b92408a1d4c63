//! Arithmetic modulo the prime order shared by the scalar field and the groups.
use vstd::arithmetic::div_mod::{
    lemma_fundamental_div_mod, lemma_mod_multiples_basic, lemma_mod_multiples_vanish,
    lemma_mul_mod_noop_general,
};
use vstd::prelude::*;

verus! {

/// The order of the scalar field and of every group: the Mersenne prime 2^31 - 1.
pub const ORDER: u64 = 2147483647;

/// The canonical residue of `a`, in `[0, ORDER)`.
pub open spec fn reduce(a: int) -> int {
    a % (ORDER as int)
}

/// `a` and `b` name the same field element.
pub open spec fn congruent(a: int, b: int) -> bool {
    reduce(a) == reduce(b)
}

/// `b` is the canonical multiplicative inverse of `a`.
pub open spec fn is_inverse(a: int, b: int) -> bool {
    0 <= b < ORDER && congruent(a * b, 1)
}

/// The multiplicative inverse of `a`; meaningful when `a` is not a multiple of the order.
pub open spec fn inverse(a: int) -> int {
    choose|b: int| is_inverse(a, b)
}

/// Congruence is compatible with multiplication.
pub proof fn lemma_mul_congruent(a: int, a2: int, b: int, b2: int)
    requires
        congruent(a, a2),
        congruent(b, b2),
    ensures
        congruent(a * b, a2 * b2),
{
    lemma_mul_mod_noop_general(a, b, ORDER as int);
    lemma_mul_mod_noop_general(a2, b2, ORDER as int);
}

/// A multiple of the order is congruent to zero.
pub proof fn lemma_multiple_vanishes(k: int, a: int)
    ensures
        congruent(k * (ORDER as int) + a, a),
{
    lemma_mod_multiples_vanish(k, a, ORDER as int);
    assert(k * (ORDER as int) + a == (ORDER as int) * k + a) by (nonlinear_arith);
}

#[verifier::rlimit(100)]
proof fn lemma_no_divisor_below_root()
    by (bit_vector)
    ensures
        forall|d: u32| 1 < d && d < 46342u32 ==> #[trigger] (2147483647u32 % d) != 0,
{
}

/// The order is prime: nothing strictly between 1 and the order divides it.
pub proof fn lemma_order_is_prime(d: int)
    requires
        1 < d < ORDER,
    ensures
        (ORDER as int) % d != 0,
{
    let q = ORDER as int;
    lemma_no_divisor_below_root();
    if q % d == 0 {
        let e = q / d;
        lemma_fundamental_div_mod(q, d);
        assert(q == d * e);
        if d < 46342 {
            let small = d as u32;
            assert(2147483647u32 % small != 0);
        } else {
            assert(1 < e < 46342) by (nonlinear_arith)
                requires
                    q == d * e,
                    46342 <= d < q,
                    q == 2147483647,
            ;
            assert(q % e == 0) by {
                lemma_mod_multiples_basic(d, e);
            }
            let small = e as u32;
            assert(2147483647u32 % small != 0);
        }
    }
}

proof fn lemma_residue_has_inverse(a: int) -> (b: int)
    requires
        0 < a < ORDER,
    ensures
        is_inverse(a, b),
    decreases a,
{
    let q = ORDER as int;
    if a == 1 {
        1
    } else {
        let k = q / a;
        let r = q % a;
        lemma_fundamental_div_mod(q, a);
        lemma_order_is_prime(a);
        let rb = lemma_residue_has_inverse(r);
        let b = reduce(-(k * rb));
        assert(a * (-(k * rb)) == (-rb) * q + r * rb) by (nonlinear_arith)
            requires
                q == a * k + r,
        ;
        lemma_multiple_vanishes(-rb, r * rb);
        lemma_mul_congruent(a, a, -(k * rb), b);
        b
    }
}

/// Every element that is not a multiple of the order has an inverse.
pub proof fn lemma_inverse_exists(a: int)
    requires
        reduce(a) != 0,
    ensures
        is_inverse(a, inverse(a)),
{
    let b = lemma_residue_has_inverse(reduce(a));
    lemma_mul_congruent(reduce(a), a, b, b);
    assert(is_inverse(a, b));
}

/// The canonical inverse is unique.
pub proof fn lemma_inverse_unique(a: int, b: int, c: int)
    requires
        is_inverse(a, b),
        is_inverse(a, c),
    ensures
        b == c,
{
    lemma_mul_congruent(b, b, a * c, 1);
    lemma_mul_congruent(a * b, 1, c, c);
    assert(b * (a * c) == (a * b) * c) by (nonlinear_arith);
}

/// The field has no zero divisors.
pub proof fn lemma_product_nonzero(a: int, b: int)
    requires
        reduce(a) != 0,
        reduce(b) != 0,
    ensures
        reduce(a * b) != 0,
{
    if reduce(a * b) == 0 {
        let ia = inverse(a);
        lemma_inverse_exists(a);
        lemma_mul_congruent(ia, ia, a * b, 0);
        lemma_mul_congruent(a * ia, 1, b, b);
        assert(ia * (a * b) == (a * ia) * b) by (nonlinear_arith);
    }
}

/// The inverse of a product is the product of the inverses.
pub proof fn lemma_inverse_of_product(a: int, b: int)
    requires
        reduce(a) != 0,
        reduce(b) != 0,
    ensures
        reduce(a * b) != 0,
        inverse(a * b) == reduce(inverse(a) * inverse(b)),
{
    lemma_product_nonzero(a, b);
    lemma_inverse_exists(a);
    lemma_inverse_exists(b);
    lemma_inverse_exists(a * b);
    let ia = inverse(a);
    let ib = inverse(b);
    lemma_mul_congruent(a * ia, 1, b * ib, 1);
    assert((a * b) * (ia * ib) == (a * ia) * (b * ib)) by (nonlinear_arith);
    lemma_mul_congruent(a * b, a * b, ia * ib, reduce(ia * ib));
    lemma_inverse_unique(a * b, inverse(a * b), reduce(ia * ib));
}

/// A non-zero common factor cancels from both sides of a congruence.
pub proof fn lemma_cancel(c: int, a: int, b: int)
    requires
        reduce(c) != 0,
        congruent(c * a, c * b),
    ensures
        congruent(a, b),
{
    let ic = inverse(c);
    lemma_inverse_exists(c);
    lemma_mul_congruent(ic, ic, c * a, c * b);
    lemma_mul_congruent(c * ic, 1, a, a);
    lemma_mul_congruent(c * ic, 1, b, b);
    assert(ic * (c * a) == (c * ic) * a) by (nonlinear_arith);
    assert(ic * (c * b) == (c * ic) * b) by (nonlinear_arith);
}

/// Congruent elements have the same inverse.
pub proof fn lemma_inverse_congruent(a: int, b: int)
    requires
        reduce(a) != 0,
        congruent(a, b),
    ensures
        inverse(a) == inverse(b),
{
    lemma_inverse_exists(a);
    lemma_inverse_exists(b);
    lemma_mul_congruent(b, a, inverse(b), inverse(b));
    lemma_inverse_unique(a, inverse(a), inverse(b));
}

} // verus!
