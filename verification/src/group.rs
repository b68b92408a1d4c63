//! The two source groups of the pairing and its target group.
//!
//! All three are cyclic of order `ORDER`. An element is held by its discrete
//! logarithm to the group's generator, so the group law is addition of
//! residues, multiplication by a scalar is multiplication of residues, and the
//! pairing multiplies the logarithms of its two arguments.
use crate::field::{reduce, ORDER};
use crate::scalar::FE2;
use vstd::prelude::*;

verus! {

/// An element of the group that holds public keys.
#[derive(Clone, Copy, Debug, PartialEq, Eq, Structural)]
pub struct GE2 {
    log: u64,
}

/// An element of the group that holds signatures and message digests.
#[derive(Clone, Copy, Debug, PartialEq, Eq, Structural)]
pub struct GE1 {
    log: u64,
}

/// An element of the target group of the pairing.
#[derive(Clone, Copy, Debug, PartialEq, Eq, Structural)]
pub struct GT {
    log: u64,
}

impl View for GE2 {
    type V = int;

    /// The discrete logarithm to the generator, in `[0, ORDER)`.
    closed spec fn view(&self) -> int {
        reduce(self.log as int)
    }
}

impl View for GE1 {
    type V = int;

    /// The discrete logarithm to the generator, in `[0, ORDER)`.
    closed spec fn view(&self) -> int {
        reduce(self.log as int)
    }
}

impl View for GT {
    type V = int;

    /// The discrete logarithm to the pairing of the two generators, in `[0, ORDER)`.
    closed spec fn view(&self) -> int {
        reduce(self.log as int)
    }
}

/// The digest of a message as a logarithm in the signature group: a
/// polynomial hash of the bytes in base 257.
pub open spec fn digest(message: Seq<u8>) -> int
    decreases message.len(),
{
    if message.len() == 0 {
        1
    } else {
        reduce(digest(message.drop_last()) * 257 + message.last() as int + 1)
    }
}

impl GE2 {
    #[verifier::type_invariant]
    spec fn canonical(self) -> bool {
        self.log < ORDER
    }

    /// The neutral element.
    pub fn identity() -> (r: GE2)
        ensures
            r@ == 0,
    {
        GE2 { log: 0 }
    }

    /// The generator of the group.
    pub fn generator() -> (r: GE2)
        ensures
            r@ == 1,
    {
        GE2 { log: 1 }
    }

    /// The group law.
    pub fn add_point(&self, other: &GE2) -> (r: GE2)
        ensures
            r@ == reduce(self@ + other@),
    {
        proof {
            use_type_invariant(self);
            use_type_invariant(other);
        }
        GE2 { log: (self.log + other.log) % ORDER }
    }

    /// The element added to itself `scalar` times.
    pub fn scalar_mul(&self, scalar: &FE2) -> (r: GE2)
        ensures
            r@ == reduce(self@ * scalar@),
    {
        let s: u64 = scalar.to_u64();
        proof {
            use_type_invariant(self);
            scalar.lemma_view_canonical();
            assert(self.log * s < 0x4000_0000_0000_0000) by (nonlinear_arith)
                requires
                    self.log < 0x8000_0000,
                    s < 0x8000_0000,
            ;
        }
        GE2 { log: (self.log * s) % ORDER }
    }
}

impl GE1 {
    #[verifier::type_invariant]
    spec fn canonical(self) -> bool {
        self.log < ORDER
    }

    /// The neutral element.
    pub fn identity() -> (r: GE1)
        ensures
            r@ == 0,
    {
        GE1 { log: 0 }
    }

    /// The generator of the group.
    pub fn generator() -> (r: GE1)
        ensures
            r@ == 1,
    {
        GE1 { log: 1 }
    }

    /// The group law.
    pub fn add_point(&self, other: &GE1) -> (r: GE1)
        ensures
            r@ == reduce(self@ + other@),
    {
        proof {
            use_type_invariant(self);
            use_type_invariant(other);
        }
        GE1 { log: (self.log + other.log) % ORDER }
    }

    /// The element added to itself `scalar` times.
    pub fn scalar_mul(&self, scalar: &FE2) -> (r: GE1)
        ensures
            r@ == reduce(self@ * scalar@),
    {
        let s: u64 = scalar.to_u64();
        proof {
            use_type_invariant(self);
            scalar.lemma_view_canonical();
            assert(self.log * s < 0x4000_0000_0000_0000) by (nonlinear_arith)
                requires
                    self.log < 0x8000_0000,
                    s < 0x8000_0000,
            ;
        }
        GE1 { log: (self.log * s) % ORDER }
    }

    /// Hashes a message to an element of the group.
    pub fn hash_to_curve(message: &[u8]) -> (r: GE1)
        ensures
            r@ == digest(message@),
    {
        let mut acc: u64 = 1;
        let mut i: usize = 0;
        while i < message.len()
            invariant
                i <= message.len(),
                acc < ORDER,
                acc == digest(message@.take(i as int)),
            decreases message.len() - i,
        {
            let byte: u64 = message[i] as u64;
            proof {
                let next = message@.take(i + 1);
                assert(next.drop_last() == message@.take(i as int));
                assert(next.last() == message@[i as int]);
            }
            acc = (acc * 257 + byte + 1) % ORDER;
            i = i + 1;
        }
        proof {
            assert(message@.take(i as int) == message@);
        }
        GE1 { log: acc }
    }
}

impl GT {
    #[verifier::type_invariant]
    spec fn canonical(self) -> bool {
        self.log < ORDER
    }

    /// Whether two elements of the target group are the same.
    pub fn equals(&self, other: &GT) -> (b: bool)
        ensures
            b == (self@ == other@),
    {
        proof {
            use_type_invariant(self);
            use_type_invariant(other);
        }
        self.log == other.log
    }
}

/// The bilinear pairing of a signature-group element with a key-group element.
pub fn pairing(p: &GE1, q: &GE2) -> (r: GT)
    ensures
        r@ == reduce(p@ * q@),
{
    proof {
        use_type_invariant(p);
        use_type_invariant(q);
        assert(p.log * q.log < 0x4000_0000_0000_0000) by (nonlinear_arith)
            requires
                p.log < 0x8000_0000,
                q.log < 0x8000_0000,
        ;
    }
    GT { log: (p.log * q.log) % ORDER }
}

} // verus!
