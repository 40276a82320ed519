use ark_bn254::Fr;
use ark_ff::PrimeField;
use constraint_counter::field::FieldElement;

#[test]
fn small_integers_are_their_own_limbs() {
    assert_eq!(FieldElement::zero().limbs, [0, 0, 0, 0]);
    assert_eq!(FieldElement::one().limbs, [1, 0, 0, 0]);
    assert_eq!(FieldElement::from_u64(u64::MAX).limbs, [u64::MAX, 0, 0, 0]);
    assert_eq!(FieldElement::from_u64(77).limbs, Fr::from(77u64).into_bigint().0);
}

#[test]
fn limbs_are_those_of_the_constraint_field() {
    let minus_one = FieldElement { limbs: (-Fr::from(1u64)).into_bigint().0 };
    // the modulus less one, least significant limb first
    assert_eq!(
        minus_one.limbs,
        [0x43e1f593f0000000, 0x2833e84879b97091, 0xb85045b68181585d, 0x30644e72e131a029]
    );
}
