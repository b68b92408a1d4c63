//! What the scheme promises: quorums of a proper sharing agree on the key,
//! a signature verifies on the message it was made for, and on no other.
use crate::bls::{public_of, signature_of, signature_valid};
use crate::field::{congruent, lemma_mul_congruent, lemma_product_nonzero, reduce, ORDER};
use crate::group::digest;
use crate::lagrange::weighted_sum;
use crate::polynomial::evaluate;
use crate::reconstruction::{lemma_polynomial_reconstructed, lemma_weighted_sum_linear, values};
use crate::threshold::{
    evaluation_points, lemma_quorum_points_distinct, partial_signatures, quorum_error, select,
    ThresholdError, ThresholdKeyPairs, ThresholdSignature,
};
use vstd::prelude::*;

verus! {

/// A digest is a canonical residue.
pub proof fn lemma_digest_canonical(message: Seq<u8>)
    ensures
        0 <= digest(message) < ORDER,
{
}

/// In a registry whose shares lie on a polynomial, a well-formed quorum with
/// at least as many members as the polynomial has coefficients reconstructs
/// the polynomial's constant term as its secret, and the public key of that
/// constant term as its public key.
pub proof fn lemma_quorum_reconstructs_shared_secret(
    registry: ThresholdKeyPairs,
    coefficients: Seq<int>,
    quorum: Seq<usize>,
)
    requires
        registry.wf(),
        registry.shares_polynomial(coefficients),
        quorum_error(quorum, registry.parties()) is None,
        coefficients.len() <= quorum.len(),
    ensures
        registry.quorum_secret(quorum) == reduce(evaluate(coefficients, 0)),
        registry.quorum_public_key(quorum) == public_of(evaluate(coefficients, 0)),
{
    registry.lemma_wf();
    let xs = evaluation_points(quorum);
    let n = xs.len() as int;
    let ideal = values(coefficients, xs);
    let secrets = select(registry.secret_shares(), quorum);
    let publics = select(registry.public_shares(), quorum);
    lemma_quorum_points_distinct(quorum, registry.parties());
    lemma_polynomial_reconstructed(xs, coefficients);
    assert forall|i: int| 0 <= i < n implies congruent(
        #[trigger] secrets[i],
        1 * ideal[i] + 0 * ideal[i],
    ) && congruent(#[trigger] publics[i], 1 * ideal[i] + 0 * ideal[i]) by {
        let party = quorum[i] as int;
        assert(0 <= party < registry.parties());
        assert(registry.secret_shares()[party] == reduce(evaluate(coefficients, party + 1)));
        assert(ideal[i] == evaluate(coefficients, xs[i]));
        assert(xs[i] == party + 1);
        assert(registry.public_shares()[party] == public_of(registry.secret_shares()[party]));
    }
    lemma_weighted_sum_linear(xs, secrets, ideal, ideal, 1, 0, n);
    lemma_weighted_sum_linear(xs, publics, ideal, ideal, 1, 0, n);
}

/// Quorum independence: where all shares lie on one polynomial of degree
/// below the threshold, any two well-formed quorums that reach the threshold
/// reconstruct the same public key, the one that belongs to the polynomial's
/// value at zero.
pub proof fn lemma_quorums_reconstruct_same_key(
    registry: ThresholdKeyPairs,
    coefficients: Seq<int>,
    first: Seq<usize>,
    second: Seq<usize>,
)
    requires
        registry.wf(),
        registry.shares_polynomial(coefficients),
        coefficients.len() <= registry.threshold(),
        quorum_error(first, registry.parties()) is None,
        quorum_error(second, registry.parties()) is None,
        first.len() >= registry.threshold(),
        second.len() >= registry.threshold(),
    ensures
        registry.quorum_public_key(first) == registry.quorum_public_key(second),
        registry.quorum_public_key(first) == public_of(evaluate(coefficients, 0)),
{
    lemma_quorum_reconstructs_shared_secret(registry, coefficients, first);
    lemma_quorum_reconstructs_shared_secret(registry, coefficients, second);
}

/// Interpolation commutes with the primitive: the public key that a quorum
/// reconstructs belongs to the secret that it reconstructs, and the signature
/// that it produces on a message is that secret's signature on the message.
pub proof fn lemma_quorum_acts_as_one_key(
    registry: ThresholdKeyPairs,
    message: Seq<u8>,
    quorum: Seq<usize>,
)
    requires
        registry.wf(),
        quorum_error(quorum, registry.parties()) is None,
    ensures
        registry.quorum_public_key(quorum) == public_of(registry.quorum_secret(quorum)),
        registry.quorum_signature(message, quorum) == signature_of(
            message,
            registry.quorum_secret(quorum),
        ),
{
    registry.lemma_wf();
    let xs = evaluation_points(quorum);
    let n = xs.len() as int;
    let secrets = select(registry.secret_shares(), quorum);
    let publics = select(registry.public_shares(), quorum);
    let partials = partial_signatures(message, registry.secret_shares(), quorum);
    let h = digest(message);
    assert forall|i: int| 0 <= i < n implies congruent(
        #[trigger] partials[i],
        h * secrets[i] + 0 * secrets[i],
    ) && congruent(#[trigger] publics[i], 1 * secrets[i] + 0 * secrets[i]) by {
        let party = quorum[i] as int;
        assert(0 <= party < registry.parties());
        assert(partials[i] == signature_of(message, registry.secret_shares()[party]));
        assert(registry.public_shares()[party] == public_of(registry.secret_shares()[party]));
    }
    lemma_weighted_sum_linear(xs, partials, secrets, secrets, h, 0, n);
    lemma_weighted_sum_linear(xs, publics, secrets, secrets, 1, 0, n);
    let total = weighted_sum(xs, secrets, n);
    lemma_mul_congruent(h, h, total, registry.quorum_secret(quorum));
}

/// A signature that a quorum at or above the threshold produced on one
/// message verifies on another message exactly where the two messages have
/// the same digest or the quorum's secret is zero.
pub proof fn lemma_verification_of_signed(
    registry: ThresholdKeyPairs,
    signature: ThresholdSignature,
    message: Seq<u8>,
    other: Seq<u8>,
)
    requires
        registry.wf(),
        signature.signed_by(message, registry),
        signature.quorum@.len() >= registry.threshold(),
    ensures
        signature.verification(other, registry) == Ok::<bool, ThresholdError>(
            digest(other) == digest(message) || registry.quorum_secret(signature.quorum@) == 0,
        ),
{
    let quorum = signature.quorum@;
    let secret = registry.quorum_secret(quorum);
    let key = registry.quorum_public_key(quorum);
    let h = digest(message);
    let h2 = digest(other);
    lemma_quorum_acts_as_one_key(registry, message, quorum);
    lemma_digest_canonical(message);
    lemma_digest_canonical(other);
    lemma_mul_congruent(h2, h2, key, secret);
    assert(signature_valid(signature.value(), other, key) == congruent(h * secret, h2 * secret));
    if h2 == h {
    } else if secret == 0 {
        lemma_mul_congruent(h, h, secret, 0);
        lemma_mul_congruent(h2, h2, secret, 0);
    } else {
        assert((h - h2) * secret == h * secret - h2 * secret) by (nonlinear_arith);
        lemma_product_nonzero(h - h2, secret);
    }
}

/// Round trip: a signature that a well-formed quorum at or above the
/// threshold produced on a message verifies on that message.
pub proof fn lemma_sign_verify_round_trip(
    registry: ThresholdKeyPairs,
    signature: ThresholdSignature,
    message: Seq<u8>,
)
    requires
        registry.wf(),
        signature.signed_by(message, registry),
        signature.quorum@.len() >= registry.threshold(),
    ensures
        signature.verification(message, registry) == Ok::<bool, ThresholdError>(true),
{
    lemma_verification_of_signed(registry, signature, message, message);
}

/// A signature that a quorum produced on one message fails on every message
/// with another digest, where the quorum's secret is not zero.
pub proof fn lemma_signature_bound_to_message(
    registry: ThresholdKeyPairs,
    signature: ThresholdSignature,
    message: Seq<u8>,
    other: Seq<u8>,
)
    requires
        registry.wf(),
        signature.signed_by(message, registry),
        signature.quorum@.len() >= registry.threshold(),
        digest(other) != digest(message),
        registry.quorum_secret(signature.quorum@) != 0,
    ensures
        signature.verification(other, registry) == Ok::<bool, ThresholdError>(false),
{
    lemma_verification_of_signed(registry, signature, message, other);
}

/// Threshold enforcement: a signature whose quorum has fewer members than
/// the threshold fails verification, whatever its value and its quorum.
pub proof fn lemma_undersized_quorum_fails(
    registry: ThresholdKeyPairs,
    signature: ThresholdSignature,
    message: Seq<u8>,
)
    requires
        signature.quorum@.len() < registry.threshold(),
    ensures
        signature.verification(message, registry) == Ok::<bool, ThresholdError>(false),
{
}

} // verus!
