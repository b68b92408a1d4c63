use threshold_bls::bls::{BLSSignature, KeyPairG2, PrimitiveError};
use threshold_bls::field::ORDER;
use threshold_bls::group::{GE1, GE2};
use threshold_bls::scalar::FE2;
use threshold_bls::threshold::{ThresholdError, ThresholdKeyPairs, ThresholdSignature};

/// The sharing of the secret 1234 by the polynomial 1234 + 166 x + 94 x^2.
fn degree_two_sharing() -> ThresholdKeyPairs {
    let coefficients = vec![FE2::from_u64(1234), FE2::from_u64(166), FE2::from_u64(94)];
    ThresholdKeyPairs::from_polynomial(&coefficients, 5).unwrap()
}

#[test]
fn scenario_two_quorums_reconstruct_the_same_key_and_validate_each_other() {
    let registry = degree_two_sharing();
    let first = vec![0usize, 2, 4];
    let second = vec![1usize, 2, 3];
    let key_first = registry.quorum_X(&first).unwrap();
    let key_second = registry.quorum_X(&second).unwrap();
    assert_eq!(key_first, key_second);
    assert_eq!(key_first, GE2::generator().scalar_mul(&FE2::from_u64(1234)));

    let by_first = ThresholdSignature::sign(b"hello", &registry, &first).unwrap();
    let by_second = ThresholdSignature::sign(b"hello", &registry, &second).unwrap();
    assert_eq!(by_first.verify(b"hello", &registry), Ok(true));
    assert_eq!(by_second.verify(b"hello", &registry), Ok(true));
    assert_eq!(by_first.sig, by_second.sig);

    // Each signature also validates against the key of the other quorum.
    let crossed = ThresholdSignature { sig: by_first.sig, quorum: second.clone() };
    assert_eq!(crossed.verify(b"hello", &registry), Ok(true));
    let crossed = ThresholdSignature { sig: by_second.sig, quorum: first.clone() };
    assert_eq!(crossed.verify(b"hello", &registry), Ok(true));
}

#[test]
fn polynomial_sharing_gives_each_party_the_value_at_its_point() {
    let registry = degree_two_sharing();
    assert_eq!(registry.n(), 5);
    assert_eq!(registry.t(), 3);
    let all = vec![0usize, 1, 2, 3, 4];
    let shares: Vec<u64> = registry.get_x(&all).unwrap().iter().map(|x| x.to_u64()).collect();
    assert_eq!(shares, vec![1494, 1942, 2578, 3402, 4414]);
}

#[test]
fn quorum_secret_is_the_constant_term() {
    let registry = degree_two_sharing();
    assert_eq!(registry.quorum_x(&vec![0, 2, 4]).unwrap().to_u64(), 1234);
    assert_eq!(registry.quorum_x(&vec![4, 0, 1, 3]).unwrap().to_u64(), 1234);
    assert_eq!(registry.quorum_x(&vec![0, 1, 2, 3, 4]).unwrap().to_u64(), 1234);
}

#[test]
fn undersized_quorum_reconstructs_another_secret() {
    let registry = degree_two_sharing();
    // The line through (1, 1494) and (2, 1942) meets zero at 1046.
    assert_eq!(registry.quorum_x(&vec![0, 1]).unwrap().to_u64(), 1046);
}

#[test]
fn threshold_signature_is_the_secret_times_the_digest() {
    let registry = degree_two_sharing();
    let signature = ThresholdSignature::sign(b"hello", &registry, &vec![1, 2, 3]).unwrap();
    assert_eq!(signature.quorum, vec![1, 2, 3]);
    assert_eq!(signature.sig, BLSSignature::sign(b"hello", &FE2::from_u64(1234)));
    assert_eq!(signature.sig.sigma, GE1::generator().scalar_mul(&FE2::from_u64(1500635644)));
}

#[test]
fn sign_then_verify_round_trip() {
    let registry = degree_two_sharing();
    for quorum in [vec![0usize, 1, 2], vec![4, 3, 2, 1], vec![0, 1, 2, 3, 4]] {
        let signature = ThresholdSignature::sign(b"a message", &registry, &quorum).unwrap();
        assert_eq!(signature.verify(b"a message", &registry), Ok(true));
    }
}

#[test]
fn round_trip_holds_for_independent_keys() {
    let registry = ThresholdKeyPairs::new(6, 4).unwrap();
    let quorum = vec![5usize, 0, 3, 1];
    let signature = ThresholdSignature::sign(b"independent", &registry, &quorum).unwrap();
    assert_eq!(signature.verify(b"independent", &registry), Ok(true));
}

#[test]
fn undersized_quorum_fails_verification() {
    let registry = degree_two_sharing();
    let undersized = vec![0usize, 1];
    let signature = ThresholdSignature::sign(b"hello", &registry, &undersized).unwrap();
    assert_eq!(signature.verify(b"hello", &registry), Ok(false));

    // A genuine signature fails too once its quorum is cut below the threshold.
    let mut genuine = ThresholdSignature::sign(b"hello", &registry, &vec![0, 1, 2]).unwrap();
    assert_eq!(genuine.verify(b"hello", &registry), Ok(true));
    genuine.quorum.pop();
    assert_eq!(genuine.verify(b"hello", &registry), Ok(false));

    // So does an empty quorum, and a short quorum that is malformed as well.
    let empty = ThresholdSignature { sig: genuine.sig, quorum: vec![] };
    assert_eq!(empty.verify(b"hello", &registry), Ok(false));
    let short_and_wild = ThresholdSignature { sig: genuine.sig, quorum: vec![9, 9] };
    assert_eq!(short_and_wild.verify(b"hello", &registry), Ok(false));
}

#[test]
fn strict_signing_refuses_an_undersized_quorum() {
    let registry = degree_two_sharing();
    assert!(matches!(
        ThresholdSignature::sign_strict(b"hello", &registry, &vec![0, 1]),
        Err(ThresholdError::QuorumTooSmall)
    ));
    let signature = ThresholdSignature::sign_strict(b"hello", &registry, &vec![0, 1, 2]).unwrap();
    assert_eq!(signature.verify(b"hello", &registry), Ok(true));
    assert!(matches!(
        ThresholdSignature::sign_strict(b"hello", &registry, &vec![0, 0]),
        Err(ThresholdError::DuplicateIndex)
    ));
}

#[test]
fn index_out_of_range_is_an_error() {
    let registry = degree_two_sharing();
    assert_eq!(registry.get_X(&vec![0, 5]), Err(ThresholdError::IndexOutOfRange));
    assert_eq!(registry.get_x(&vec![usize::MAX]), Err(ThresholdError::IndexOutOfRange));
    assert_eq!(registry.quorum_X(&vec![0, 1, 5]), Err(ThresholdError::IndexOutOfRange));
    assert_eq!(registry.quorum_x(&vec![7, 1, 2]), Err(ThresholdError::IndexOutOfRange));
    assert!(matches!(
        ThresholdSignature::sign(b"hello", &registry, &vec![0, 1, 5]),
        Err(ThresholdError::IndexOutOfRange)
    ));
    assert!(matches!(
        ThresholdSignature::sign(b"hello", &registry, &vec![usize::MAX, 1, 2]),
        Err(ThresholdError::IndexOutOfRange)
    ));
    let wild = ThresholdSignature {
        sig: BLSSignature::sign(b"hello", &FE2::from_u64(1234)),
        quorum: vec![0, 1, 5],
    };
    assert_eq!(wild.verify(b"hello", &registry), Err(ThresholdError::IndexOutOfRange));
}

#[test]
fn duplicate_index_is_an_error() {
    let registry = degree_two_sharing();
    assert_eq!(registry.quorum_X(&vec![0, 1, 0]), Err(ThresholdError::DuplicateIndex));
    assert_eq!(registry.quorum_x(&vec![2, 2, 3]), Err(ThresholdError::DuplicateIndex));
    assert!(matches!(
        ThresholdSignature::sign(b"hello", &registry, &vec![3, 4, 4]),
        Err(ThresholdError::DuplicateIndex)
    ));
    let repeated = ThresholdSignature {
        sig: BLSSignature::sign(b"hello", &FE2::from_u64(1234)),
        quorum: vec![1, 2, 1],
    };
    assert_eq!(repeated.verify(b"hello", &registry), Err(ThresholdError::DuplicateIndex));
    // Shares may be fetched twice: only interpolation needs distinct points.
    let twice = registry.get_x(&vec![1, 1]).unwrap();
    assert_eq!(twice[0], twice[1]);
}

#[test]
fn empty_quorum_is_an_error() {
    let registry = degree_two_sharing();
    assert_eq!(registry.quorum_X(&vec![]), Err(ThresholdError::EmptyQuorum));
    assert_eq!(registry.quorum_x(&vec![]), Err(ThresholdError::EmptyQuorum));
    assert!(matches!(
        ThresholdSignature::sign(b"hello", &registry, &vec![]),
        Err(ThresholdError::EmptyQuorum)
    ));
    assert_eq!(registry.check_quorum(&vec![]), Err(ThresholdError::EmptyQuorum));
    assert_eq!(registry.get_X(&vec![]), Ok(vec![]));
}

#[test]
fn out_of_range_is_reported_before_duplicates() {
    let registry = degree_two_sharing();
    assert_eq!(registry.check_quorum(&vec![1, 1, 9]), Err(ThresholdError::IndexOutOfRange));
    assert_eq!(registry.check_quorum(&vec![1, 1, 2]), Err(ThresholdError::DuplicateIndex));
    assert_eq!(registry.check_quorum(&vec![3, 1, 2]), Ok(()));
}

#[test]
fn signature_on_one_message_fails_on_another() {
    let registry = degree_two_sharing();
    let quorum = vec![0usize, 1, 2];
    let signature = ThresholdSignature::sign(b"hello", &registry, &quorum).unwrap();
    assert_eq!(signature.verify(b"world", &registry), Ok(false));
    assert_eq!(signature.verify(b"hello", &registry), Ok(true));
}

#[test]
fn forged_signature_fails_verification() {
    let registry = degree_two_sharing();
    let forged = ThresholdSignature {
        sig: BLSSignature::sign(b"hello", &FE2::from_u64(1235)),
        quorum: vec![0, 1, 2],
    };
    assert_eq!(forged.verify(b"hello", &registry), Ok(false));
}

#[test]
fn parameters_out_of_range_are_refused() {
    assert!(matches!(ThresholdKeyPairs::new(5, 0), Err(ThresholdError::InvalidThreshold)));
    assert!(matches!(ThresholdKeyPairs::new(5, 6), Err(ThresholdError::InvalidThreshold)));
    assert!(matches!(ThresholdKeyPairs::new(0, 0), Err(ThresholdError::InvalidThreshold)));
    assert!(matches!(
        ThresholdKeyPairs::new(ORDER as usize, 2),
        Err(ThresholdError::TooManyParties)
    ));
    assert!(matches!(
        ThresholdKeyPairs::from_secrets(&vec![FE2::one(), FE2::one()], 3),
        Err(ThresholdError::InvalidThreshold)
    ));
    assert!(matches!(
        ThresholdKeyPairs::from_polynomial(&vec![FE2::one(), FE2::one()], 1),
        Err(ThresholdError::InvalidThreshold)
    ));
    assert!(matches!(
        ThresholdKeyPairs::from_polynomial(&vec![], 3),
        Err(ThresholdError::InvalidThreshold)
    ));
    assert!(matches!(
        ThresholdKeyPairs::from_polynomial(&vec![FE2::one()], ORDER as usize),
        Err(ThresholdError::TooManyParties)
    ));
    assert!(ThresholdKeyPairs::new(1, 1).is_ok());
}

#[test]
fn new_generates_one_key_pair_per_party() {
    let registry = ThresholdKeyPairs::new(16, 16).unwrap();
    assert_eq!(registry.n(), 16);
    assert_eq!(registry.t(), 16);
    let all: Vec<usize> = (0..16).collect();
    let secrets = registry.get_x(&all).unwrap();
    let publics = registry.get_X(&all).unwrap();
    assert_eq!(secrets.len(), 16);
    for i in 0..16 {
        assert_eq!(publics[i], GE2::generator().scalar_mul(&secrets[i]));
    }
    // Sixteen draws from the system's randomness are not all the same.
    assert!(secrets.iter().any(|x| *x != secrets[0]));
}

#[test]
fn key_pair_from_secret_holds_its_public_key() {
    let pair = KeyPairG2::from_secret(FE2::from_u64(77));
    assert_eq!(pair.private_key().to_u64(), 77);
    assert_eq!(pair.public_key(), GE2::generator().scalar_mul(&FE2::from_u64(77)));
    let fresh = KeyPairG2::new().unwrap();
    assert_eq!(fresh.public_key(), GE2::generator().scalar_mul(&fresh.private_key()));
}

#[test]
fn key_pair_from_a_draw_reduces_the_drawn_integer() {
    let pair = KeyPairG2::from_entropy(Ok(ORDER + 77)).unwrap();
    assert_eq!(pair, KeyPairG2::from_secret(FE2::from_u64(77)));
    let pair = KeyPairG2::from_entropy(Ok(u64::MAX)).unwrap();
    assert_eq!(pair.private_key().to_u64(), u64::MAX % ORDER);
    assert_eq!(
        KeyPairG2::from_entropy(Err(getrandom::Error::UNSUPPORTED)),
        Err(PrimitiveError::EntropyUnavailable)
    );
}

#[test]
fn shares_come_in_quorum_order() {
    let secrets: Vec<FE2> = [5u64, 7, 11, 13, 17].iter().map(|s| FE2::from_u64(*s)).collect();
    let registry = ThresholdKeyPairs::from_secrets(&secrets, 2).unwrap();
    let picked: Vec<u64> =
        registry.get_x(&vec![4, 0, 2]).unwrap().iter().map(|x| x.to_u64()).collect();
    assert_eq!(picked, vec![17, 5, 11]);
    let publics = registry.get_X(&vec![4, 0, 2]).unwrap();
    assert_eq!(publics[0], GE2::generator().scalar_mul(&FE2::from_u64(17)));
    assert_eq!(publics[1], GE2::generator().scalar_mul(&FE2::from_u64(5)));
    assert_eq!(publics[2], GE2::generator().scalar_mul(&FE2::from_u64(11)));
}

#[test]
fn independent_shares_depend_on_the_quorum() {
    let secrets: Vec<FE2> = [5u64, 7, 11, 13, 17].iter().map(|s| FE2::from_u64(*s)).collect();
    let registry = ThresholdKeyPairs::from_secrets(&secrets, 3).unwrap();
    assert_eq!(registry.quorum_x(&vec![0, 1, 2]).unwrap().to_u64(), 5);
    assert_eq!(registry.quorum_x(&vec![1, 2, 3]).unwrap().to_u64(), 2147483640);
    assert_ne!(registry.quorum_X(&vec![0, 1, 2]), registry.quorum_X(&vec![1, 2, 3]));
}

#[test]
fn quorum_acts_as_the_key_it_reconstructs() {
    let secrets: Vec<FE2> = [5u64, 7, 11, 13, 17].iter().map(|s| FE2::from_u64(*s)).collect();
    let registry = ThresholdKeyPairs::from_secrets(&secrets, 3).unwrap();
    let quorum = vec![3usize, 1, 4];
    let secret = registry.quorum_x(&quorum).unwrap();
    assert_eq!(registry.quorum_X(&quorum).unwrap(), GE2::generator().scalar_mul(&secret));
    let signature = ThresholdSignature::sign(b"hello", &registry, &quorum).unwrap();
    assert_eq!(signature.sig, BLSSignature::sign(b"hello", &secret));
}
