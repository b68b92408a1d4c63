//! Single-party keys and signatures over the pairing.
use crate::field::reduce;
use crate::group::{digest, pairing, GE1, GE2};
use crate::scalar::FE2;
use vstd::prelude::*;

verus! {

/// The error of `getrandom::getrandom`, carried through as an opaque value.
#[verifier::external_type_specification]
#[verifier::external_body]
pub struct ExEntropyError(getrandom::Error);

/// Why the primitive could not do its work.
#[derive(Clone, Copy, Debug, PartialEq, Eq, Structural)]
pub enum PrimitiveError {
    /// The operating system gave no random bytes.
    EntropyUnavailable,
}

/// Calls `getrandom::getrandom` on a buffer of eight bytes and reads them as
/// an integer. Nothing is claimed of the integer; an error is that of the call.
#[verifier::external_body]
fn system_entropy() -> (r: Result<u64, getrandom::Error>) {
    let mut buffer = [0u8; 8];
    match getrandom::getrandom(&mut buffer) {
        Ok(()) => Ok(u64::from_le_bytes(buffer)),
        Err(e) => Err(e),
    }
}

/// The public key that belongs to a secret key: the generator times the secret.
pub open spec fn public_of(secret: int) -> int {
    reduce(1 * secret)
}

/// The signature of a message under a secret key: the digest times the secret.
pub open spec fn signature_of(message: Seq<u8>, secret: int) -> int {
    reduce(digest(message) * secret)
}

/// The pairing equation: the signature paired with the generator equals the
/// digest paired with the public key.
pub open spec fn signature_valid(sigma: int, message: Seq<u8>, public: int) -> bool {
    reduce(sigma * 1) == reduce(digest(message) * public)
}

/// A secret scalar with the public key that belongs to it.
#[derive(Clone, Copy, Debug, PartialEq, Eq, Structural)]
#[allow(non_snake_case)]
pub struct KeyPairG2 {
    x: FE2,
    X: GE2,
}

/// A signature of one party.
#[derive(Clone, Copy, Debug, PartialEq, Eq, Structural)]
pub struct BLSSignature {
    pub sigma: GE1,
}

impl KeyPairG2 {
    #[verifier::type_invariant]
    spec fn matching(self) -> bool {
        self.X@ == public_of(self.x@)
    }

    /// The secret key as a residue.
    pub closed spec fn secret_value(self) -> int {
        self.x@
    }

    /// The public key as a logarithm.
    pub closed spec fn public_value(self) -> int {
        self.X@
    }

    /// The key pair of a given secret.
    pub fn from_secret(x: FE2) -> (r: KeyPairG2)
        ensures
            r.secret_value() == x@,
            r.public_value() == public_of(x@),
    {
        KeyPairG2 { x, X: GE2::generator().scalar_mul(&x) }
    }

    /// A key pair with a secret drawn from the operating system's randomness.
    pub fn new() -> (r: Result<KeyPairG2, PrimitiveError>)
        ensures
            r matches Ok(k) ==> k.public_value() == public_of(k.secret_value()),
    {
        KeyPairG2::from_entropy(system_entropy())
    }

    /// The key pair that a draw from the operating system's randomness gives:
    /// the drawn integer, reduced, is the secret; a failed draw is
    /// `EntropyUnavailable`.
    pub fn from_entropy(drawn: Result<u64, getrandom::Error>) -> (r: Result<
        KeyPairG2,
        PrimitiveError,
    >)
        ensures
            match drawn {
                Ok(raw) => {
                    &&& r matches Ok(k)
                    &&& k.secret_value() == reduce(raw as int)
                    &&& k.public_value() == public_of(reduce(raw as int))
                },
                Err(_) => r == Err::<KeyPairG2, PrimitiveError>(
                    PrimitiveError::EntropyUnavailable,
                ),
            },
    {
        match drawn {
            Ok(raw) => Ok(KeyPairG2::from_secret(FE2::from_u64(raw))),
            Err(_) => Err(PrimitiveError::EntropyUnavailable),
        }
    }

    /// The secret key.
    pub fn private_key(&self) -> (x: FE2)
        ensures
            x@ == self.secret_value(),
    {
        self.x
    }

    /// The public key.
    pub fn public_key(&self) -> (r: GE2)
        ensures
            r@ == self.public_value(),
            r@ == public_of(self.secret_value()),
    {
        proof {
            use_type_invariant(self);
        }
        self.X
    }
}

impl BLSSignature {
    /// Signs a message with a secret key.
    pub fn sign(message: &[u8], x: &FE2) -> (r: BLSSignature)
        ensures
            r.sigma@ == signature_of(message@, x@),
    {
        BLSSignature { sigma: GE1::hash_to_curve(message).scalar_mul(x) }
    }

    /// Checks the pairing equation for a message and a public key.
    #[allow(non_snake_case)]
    pub fn verify(&self, message: &[u8], X: &GE2) -> (b: bool)
        ensures
            b == signature_valid(self.sigma@, message@, X@),
    {
        let left = pairing(&self.sigma, &GE2::generator());
        let right = pairing(&GE1::hash_to_curve(message), X);
        left.equals(&right)
    }
}

} // verus!
