//! The scalar field: integers modulo the group order.
use crate::field::{
    congruent, inverse, is_inverse, lemma_inverse_exists, lemma_inverse_unique,
    lemma_mul_congruent, reduce, ORDER,
};
use vstd::arithmetic::div_mod::lemma_fundamental_div_mod;
use vstd::prelude::*;

verus! {

/// An element of the scalar field, held as its canonical residue.
#[derive(Clone, Copy, Debug, PartialEq, Eq, Structural)]
pub struct FE2 {
    residue: u64,
}

impl View for FE2 {
    type V = int;

    /// The residue in `[0, ORDER)` that this element stands for.
    closed spec fn view(&self) -> int {
        reduce(self.residue as int)
    }
}

/// One step of the extended Euclidean algorithm keeps each coefficient
/// times `a` congruent to its remainder.
proof fn lemma_euclid_step(a: int, r0: int, r1: int, t0: int, t1: int, k: int, kt: int, t2: int)
    requires
        congruent(t0 * a, r0),
        congruent(t1 * a, r1),
        congruent(kt, k * t1),
        congruent(t2, t0 - kt),
    ensures
        congruent(t2 * a, r0 - k * r1),
{
    lemma_mul_congruent(kt, k * t1, a, a);
    lemma_mul_congruent(k, k, t1 * a, r1);
    assert((k * t1) * a == k * (t1 * a)) by (nonlinear_arith);
    lemma_mul_congruent(t2, t0 - kt, a, a);
    assert((t0 - kt) * a == t0 * a - kt * a) by (nonlinear_arith);
}

impl FE2 {
    #[verifier::type_invariant]
    spec fn canonical(self) -> bool {
        self.residue < ORDER
    }

    /// A view is always a canonical residue.
    pub proof fn lemma_view_canonical(self)
        ensures
            0 <= self@ < ORDER,
            reduce(self@) == self@,
    {
    }

    /// The additive identity.
    pub fn zero() -> (r: FE2)
        ensures
            r@ == 0,
    {
        FE2 { residue: 0 }
    }

    /// The multiplicative identity.
    pub fn one() -> (r: FE2)
        ensures
            r@ == 1,
    {
        FE2 { residue: 1 }
    }

    /// The field element that the integer `n` stands for.
    pub fn from_u64(n: u64) -> (r: FE2)
        ensures
            r@ == reduce(n as int),
    {
        FE2 { residue: n % ORDER }
    }

    /// The canonical residue as a machine integer.
    pub fn to_u64(&self) -> (n: u64)
        ensures
            n == self@,
    {
        proof {
            use_type_invariant(self);
        }
        self.residue
    }

    /// Whether this is the additive identity.
    pub fn is_zero(&self) -> (b: bool)
        ensures
            b == (self@ == 0),
    {
        proof {
            use_type_invariant(self);
        }
        self.residue == 0
    }

    /// Field addition.
    pub fn add(&self, other: &FE2) -> (r: FE2)
        ensures
            r@ == reduce(self@ + other@),
    {
        proof {
            use_type_invariant(self);
            use_type_invariant(other);
        }
        FE2 { residue: (self.residue + other.residue) % ORDER }
    }

    /// Field subtraction.
    pub fn sub(&self, other: &FE2) -> (r: FE2)
        ensures
            r@ == reduce(self@ - other@),
    {
        proof {
            use_type_invariant(self);
            use_type_invariant(other);
        }
        FE2 { residue: (self.residue + ORDER - other.residue) % ORDER }
    }

    /// Field multiplication.
    pub fn mul(&self, other: &FE2) -> (r: FE2)
        ensures
            r@ == reduce(self@ * other@),
    {
        proof {
            use_type_invariant(self);
            use_type_invariant(other);
            assert(self.residue * other.residue < 0x4000_0000_0000_0000) by (nonlinear_arith)
                requires
                    self.residue < 0x8000_0000,
                    other.residue < 0x8000_0000,
            ;
        }
        FE2 { residue: (self.residue * other.residue) % ORDER }
    }

    /// The multiplicative inverse, by the extended Euclidean algorithm; `None` for zero.
    pub fn invert(&self) -> (r: Option<FE2>)
        ensures
            r is None <==> self@ == 0,
            r matches Some(i) ==> i@ == inverse(self@),
    {
        proof {
            use_type_invariant(self);
        }
        if self.residue == 0 {
            return None;
        }
        let a: u64 = self.residue;
        let mut r0: u64 = ORDER;
        let mut r1: u64 = a;
        let mut t0: u64 = 0;
        let mut t1: u64 = 1;
        // Bezout coefficients witnessing that r0 and r1 stay coprime.
        let ghost mut u: int = -((a * inverse(a as int)) / (ORDER as int));
        let ghost mut v: int = inverse(a as int);
        proof {
            lemma_inverse_exists(a as int);
            lemma_fundamental_div_mod(a * v, ORDER as int);
            assert(u * r0 + v * r1 == 1) by (nonlinear_arith)
                requires
                    a * v == (ORDER as int) * ((a * v) / (ORDER as int)) + 1,
                    u == -((a * v) / (ORDER as int)),
                    r0 == ORDER,
                    r1 == a,
            ;
        }
        while r1 != 0
            invariant
                0 < a < ORDER,
                0 <= r1 < r0 <= ORDER,
                t0 < ORDER,
                t1 < ORDER,
                congruent(t0 * a, r0 as int),
                congruent(t1 * a, r1 as int),
                u * r0 + v * r1 == 1,
            decreases r1,
        {
            let k: u64 = r0 / r1;
            let r2: u64 = r0 % r1;
            proof {
                lemma_fundamental_div_mod(r0 as int, r1 as int);
                assert(r2 == r0 - k * r1) by (nonlinear_arith)
                    requires
                        r0 == r1 * k + r2,
                ;
                assert(k * t1 < 0x4000_0000_0000_0000) by (nonlinear_arith)
                    requires
                        k <= r0,
                        r0 < 0x8000_0000,
                        t1 < 0x8000_0000,
                ;
            }
            let kt: u64 = (k * t1) % ORDER;
            let t2: u64 = (t0 + ORDER - kt) % ORDER;
            proof {
                lemma_euclid_step(a as int, r0 as int, r1 as int, t0 as int, t1 as int, k as int, kt as int, t2 as int);
                assert((u * k + v) * r1 + u * r2 == 1) by (nonlinear_arith)
                    requires
                        u * r0 + v * r1 == 1,
                        r0 == r1 * k + r2,
                ;
                let next_u = u * k + v;
                v = u;
                u = next_u;
            }
            r0 = r1;
            r1 = r2;
            t0 = t1;
            t1 = t2;
        }
        proof {
            assert(r0 == 1) by (nonlinear_arith)
                requires
                    u * r0 == 1,
                    r0 > 0,
            ;
            assert(is_inverse(a as int, t0 as int)) by {
                assert(a * t0 == t0 * a) by (nonlinear_arith);
            }
            lemma_inverse_unique(a as int, t0 as int, inverse(a as int));
        }
        Some(FE2 { residue: t0 })
    }
}

} // verus!
