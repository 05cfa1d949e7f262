use ark_ff::PrimeField as ArkPrimeField;
use ff::Field;
use noir_ivc::constants::CURVE_BN254;
use noir_ivc::constants::CURVE_BN254_ARK;
use noir_ivc::field::assert_types;
use noir_ivc::field::ff_to_ark_prime_field;
use noir_ivc::field::generic_ark_ff_to_prime_field;
use noir_ivc::field::AcirFieldElement;
use noir_ivc::field::FieldElement;

type AF = ark_bn254::Fr;
type F = halo2curves::bn256::Fr;

fn acir(a: AF) -> AcirFieldElement {
    AcirFieldElement::from_limbs(a.into_bigint().0).unwrap()
}

fn ark(a: &AcirFieldElement) -> AF {
    AF::from_bigint(ark_ff::BigInt(a.to_limbs())).unwrap()
}

fn field(b: F) -> FieldElement {
    FieldElement::from_limbs(b.into()).unwrap()
}

fn fr(b: &FieldElement) -> F {
    F::from_raw(b.to_limbs())
}

#[test]
fn test_ark_to_ff_bn254() {
    let check = |a: AF, b: F| {
        let res = generic_ark_ff_to_prime_field(&acir(a)).unwrap();
        assert_eq!(fr(&res), b);
    };

    check(AF::from(0), F::zero());
    check(AF::from(1), F::one());
    check(AF::from(16), F::one().double().double().double().double());
    check(AF::from(-1), F::zero() - F::one());
}

#[test]
fn test_ff_to_ark_bn254() {
    let check = |a: F, b: AF| {
        let res = ff_to_ark_prime_field(&field(a)).unwrap();
        assert_eq!(ark(&res), b);
    };

    check(F::from(0), AF::from(0));
    check(F::from(1), AF::from(1));
    check(F::from(16), AF::from(16));
    check(F::zero() - F::one(), AF::from(-1));
}

#[test]
fn round_trip_keeps_limbs() {
    let values = [
        [0u64, 0, 0, 0],
        [1, 0, 0, 0],
        [u64::MAX, u64::MAX, 0, 0],
        [0x43e1f593f0000000, 0x2833e84879b97091, 0xb85045b68181585d, 0x30644e72e131a029],
        [0, 0, 0, 1],
        [10, 0, 0, 0],
        [0xdeadbeef, 0x1234, 0x0, 0x2fffffffffffffff],
    ];
    for limbs in values {
        let x = FieldElement::from_limbs(limbs).unwrap();
        let y = ff_to_ark_prime_field(&x).unwrap();
        assert_eq!(y.to_limbs(), limbs);
        let back = generic_ark_ff_to_prime_field(&y).unwrap();
        assert_eq!(back, x);
        let a = AcirFieldElement::from_limbs(limbs).unwrap();
        let b = generic_ark_ff_to_prime_field(&a).unwrap();
        assert_eq!(b.to_limbs(), limbs);
        assert_eq!(ff_to_ark_prime_field(&b).unwrap(), a);
    }
}

#[test]
fn from_limbs_refuses_the_modulus_and_above() {
    let modulus = [0x43e1f593f0000001, 0x2833e84879b97091, 0xb85045b68181585d, 0x30644e72e131a029];
    assert!(FieldElement::from_limbs(modulus).is_none());
    assert!(AcirFieldElement::from_limbs(modulus).is_none());
    assert!(FieldElement::from_limbs([0, 0, 0, u64::MAX]).is_none());
    assert!(FieldElement::from_limbs([0, 0, 0, 0x30644e72e131a02a]).is_none());
    assert!(FieldElement::from_limbs([0x43e1f593f0000002, 0x2833e84879b97091, 0xb85045b68181585d, 0x30644e72e131a029]).is_none());
    let below = [0x43e1f593f0000000, 0x2833e84879b97091, 0xb85045b68181585d, 0x30644e72e131a029];
    assert!(FieldElement::from_limbs(below).is_some());
    assert!(AcirFieldElement::from_limbs(below).is_some());
}

#[test]
fn mul_is_the_product_modulo_the_order() {
    let minus_one = field(F::zero() - F::one());
    let two = FieldElement::from_u64(2);
    assert_eq!(fr(&minus_one.mul(&two)), F::zero() - F::from(2));
    assert_eq!(minus_one.mul(&minus_one), FieldElement::one());
    assert_eq!(FieldElement::from_u64(6).mul(&FieldElement::from_u64(7)), FieldElement::from_u64(42));
    assert_eq!(FieldElement::from_u64(6).mul(&FieldElement::zero()), FieldElement::zero());
    let big = FieldElement::from_u64(u64::MAX);
    assert_eq!(big.mul(&big).to_limbs(), [1, u64::MAX - 1, 0, 0]);
    assert!(FieldElement::zero().is_zero());
    assert!(!FieldElement::one().is_zero());
    assert!(AcirFieldElement::zero().is_zero());
    assert!(!AcirFieldElement::from_u64(3).is_zero());
}

#[test]
fn assert_types_accepts_the_bn254_pair_only() {
    let ark = "ark_ff::fields::models::fp::Fp<ark_ff::fields::models::fp::montgomery_backend::MontBackend<ark_bn254::fields::fr::FrConfig, 4>, 4>";
    let halo = "halo2curves::bn256::fr::Fr";
    assert_eq!(CURVE_BN254_ARK, ark);
    assert_eq!(CURVE_BN254, halo);
    assert!(assert_types(ark, halo));
    assert!(!assert_types(halo, ark));
    assert!(!assert_types(ark, "halo2curves::bn256::fq::Fq"));
    assert!(!assert_types(ark, ""));
    assert!(!assert_types("", halo));
}
