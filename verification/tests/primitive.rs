use threshold_bls::bls::BLSSignature;
use threshold_bls::field::ORDER;
use threshold_bls::group::{pairing, GE1, GE2};
use threshold_bls::lagrange::{
    lagrange_coefficients, lagrange_interpolate_f0_X, lagrange_interpolate_f0_sig,
    lagrange_interpolate_f0_x, InterpolationError,
};
use threshold_bls::polynomial::evaluate_at;
use threshold_bls::scalar::FE2;

fn residues(values: &[FE2]) -> Vec<u64> {
    values.iter().map(|v| v.to_u64()).collect()
}

#[test]
fn scalar_arithmetic_wraps_at_the_order() {
    let last = FE2::from_u64(ORDER - 1);
    assert_eq!(last.add(&FE2::one()), FE2::zero());
    assert_eq!(FE2::zero().sub(&FE2::one()), last);
    assert_eq!(last.mul(&last), FE2::one());
    assert_eq!(FE2::from_u64(ORDER), FE2::zero());
    assert_eq!(FE2::from_u64(u64::MAX).to_u64(), u64::MAX % ORDER);
    assert_eq!(FE2::from_u64(65536).mul(&FE2::from_u64(65536)).to_u64(), 2);
    assert!(FE2::zero().is_zero());
    assert!(!FE2::one().is_zero());
}

#[test]
fn inversion_gives_the_inverse() {
    assert_eq!(FE2::zero().invert(), None);
    assert_eq!(FE2::one().invert(), Some(FE2::one()));
    assert_eq!(FE2::from_u64(2).invert().unwrap().to_u64(), 1073741824);
    assert_eq!(FE2::from_u64(3).invert().unwrap().to_u64(), 1431655765);
    assert_eq!(FE2::from_u64(1234567).invert().unwrap().to_u64(), 934930065);
    for a in [5u64, 1000, 46341, ORDER - 1, ORDER - 2] {
        let x = FE2::from_u64(a);
        assert_eq!(x.mul(&x.invert().unwrap()), FE2::one());
    }
}

#[test]
fn digest_of_known_messages() {
    assert_eq!(GE1::hash_to_curve(b""), GE1::generator());
    assert_eq!(GE1::hash_to_curve(&[0u8]), GE1::generator().scalar_mul(&FE2::from_u64(258)));
    assert_eq!(
        GE1::hash_to_curve(b"hello"),
        GE1::generator().scalar_mul(&FE2::from_u64(404956922))
    );
    assert_eq!(
        GE1::hash_to_curve(b"world"),
        GE1::generator().scalar_mul(&FE2::from_u64(1587645740))
    );
}

#[test]
fn group_law_and_scalar_multiplication() {
    let g = GE2::generator();
    let three = g.add_point(&g).add_point(&g);
    assert_eq!(three, g.scalar_mul(&FE2::from_u64(3)));
    assert_eq!(g.add_point(&GE2::identity()), g);
    assert_eq!(g.scalar_mul(&FE2::zero()), GE2::identity());
    let h = GE1::generator();
    assert_eq!(h.add_point(&h), h.scalar_mul(&FE2::from_u64(2)));
    assert_eq!(h.scalar_mul(&FE2::from_u64(ORDER - 1)).add_point(&h), GE1::identity());
}

#[test]
fn pairing_is_bilinear() {
    let a = FE2::from_u64(123456);
    let b = FE2::from_u64(987654);
    let p = GE1::generator().scalar_mul(&a);
    let q = GE2::generator().scalar_mul(&b);
    let left = pairing(&p, &q);
    let right = pairing(&GE1::generator().scalar_mul(&a.mul(&b)), &GE2::generator());
    assert!(left.equals(&right));
    assert!(!left.equals(&pairing(&GE1::generator(), &GE2::generator())));
}

#[test]
fn single_party_signature_verifies_under_its_key_only() {
    let secret = FE2::from_u64(424242);
    let public = GE2::generator().scalar_mul(&secret);
    let signature = BLSSignature::sign(b"hello", &secret);
    assert!(signature.verify(b"hello", &public));
    assert!(!signature.verify(b"world", &public));
    assert!(!signature.verify(b"hello", &GE2::generator()));
}

#[test]
fn coefficients_of_known_points() {
    assert_eq!(residues(&lagrange_coefficients(&vec![1, 2]).unwrap()), vec![2, 2147483646]);
    assert_eq!(
        residues(&lagrange_coefficients(&vec![1, 3, 5]).unwrap()),
        vec![1879048193, 1610612734, 805306368]
    );
    assert_eq!(residues(&lagrange_coefficients(&vec![2, 3, 4]).unwrap()), vec![6, 2147483639, 3]);
    assert_eq!(residues(&lagrange_coefficients(&vec![9]).unwrap()), vec![1]);
}

#[test]
fn coefficients_sum_to_one() {
    let coefficients = lagrange_coefficients(&vec![4, 9, 1, 20, 7]).unwrap();
    let mut sum = FE2::zero();
    for c in coefficients.iter() {
        sum = sum.add(c);
    }
    assert_eq!(sum, FE2::one());
}

#[test]
fn repeated_points_are_detected() {
    assert_eq!(lagrange_coefficients(&vec![1, 2, 1]), Err(InterpolationError::RepeatedPoint));
    assert_eq!(lagrange_coefficients(&vec![]), Err(InterpolationError::NoPoints));
    // Two integers that stand for the same field element repeat a point.
    let wrapped = 3 + ORDER as usize;
    assert_eq!(lagrange_coefficients(&vec![3, wrapped]), Err(InterpolationError::RepeatedPoint));
    assert_eq!(
        lagrange_interpolate_f0_x(&vec![(2, FE2::one()), (2, FE2::zero())]),
        Err(InterpolationError::RepeatedPoint)
    );
    assert_eq!(
        lagrange_interpolate_f0_X(&vec![(2, GE2::generator()), (2, GE2::generator())]),
        Err(InterpolationError::RepeatedPoint)
    );
    assert_eq!(lagrange_interpolate_f0_sig(&vec![]), Err(InterpolationError::NoPoints));
}

#[test]
fn interpolation_recovers_the_constant_term_in_all_three_settings() {
    // 1234 + 166 x + 94 x^2 at 1, 3 and 5.
    let values = [1494u64, 2578, 4414];
    let points = [1usize, 3, 5];
    let scalars: Vec<(usize, FE2)> =
        points.iter().zip(values.iter()).map(|(p, v)| (*p, FE2::from_u64(*v))).collect();
    assert_eq!(lagrange_interpolate_f0_x(&scalars).unwrap().to_u64(), 1234);
    let publics: Vec<(usize, GE2)> =
        scalars.iter().map(|(p, v)| (*p, GE2::generator().scalar_mul(v))).collect();
    assert_eq!(
        lagrange_interpolate_f0_X(&publics).unwrap(),
        GE2::generator().scalar_mul(&FE2::from_u64(1234))
    );
    let signatures: Vec<(usize, GE1)> =
        scalars.iter().map(|(p, v)| (*p, GE1::generator().scalar_mul(v))).collect();
    assert_eq!(
        lagrange_interpolate_f0_sig(&signatures).unwrap(),
        GE1::generator().scalar_mul(&FE2::from_u64(1234))
    );
}

#[test]
fn polynomial_evaluation_by_horner() {
    let coefficients = vec![FE2::from_u64(1234), FE2::from_u64(166), FE2::from_u64(94)];
    assert_eq!(evaluate_at(&coefficients, &FE2::zero()).to_u64(), 1234);
    assert_eq!(evaluate_at(&coefficients, &FE2::from_u64(5)).to_u64(), 4414);
    assert_eq!(evaluate_at(&vec![], &FE2::from_u64(5)), FE2::zero());
}
