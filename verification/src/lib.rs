//! A threshold signature scheme over a pairing group of prime order.
//!
//! `n` parties each hold a share of a signing key. Any quorum of at least `t`
//! of them signs jointly: each member signs on its own, and the partial
//! signatures are combined by Lagrange interpolation at zero. The signature
//! verifies against the public key interpolated from the same quorum.
//!
//! The threshold layer is in `threshold`, the interpolation in `lagrange`,
//! and the laws that hold of both in `soundness`, proved from the theory in
//! `reconstruction`.
//!
//! The pairing itself is a reference model (`scalar`, `group`, `bls`): three
//! cyclic groups of the Mersenne prime order 2^31 - 1 whose elements are held
//! by their discrete logarithms. It has the algebra of a pairing-friendly
//! curve, which is all that the threshold layer relies on, and none of its
//! secrecy: a public key reveals its secret key. It serves to state, prove and
//! exercise the threshold layer, not to protect anything.
pub mod bls;
pub mod field;
pub mod group;
pub mod lagrange;
pub mod polynomial;
pub mod reconstruction;
pub mod scalar;
pub mod soundness;
pub mod threshold;
