//! Elements of the scalar field of BN254 as plain limbs.
//!
//! The bytecode and the constraint system both compute in the prime field of
//! order [`modulus`], each with a wire format of its own. Between the two the
//! library carries an element as four 64-bit limbs, least significant first,
//! and speaks of it in contracts by the integer in `0..modulus()` that it
//! denotes.

use ark_ff::{BigInteger, PrimeField};
use vstd::prelude::*;

verus! {

/// The order of the scalar field of BN254, a prime of 254 bits.
pub open spec fn modulus() -> nat {
    21888242871839275222246405745257275088548364400416034343698204186575808495617nat
}

/// The weight of the second limb.
pub open spec fn limb_base() -> nat {
    0x1_0000_0000_0000_0000nat
}

/// The integer that four limbs spell, least significant limb first.
pub open spec fn limbs_value(limbs: [u64; 4]) -> nat {
    (limbs[0] as nat) + (limbs[1] as nat) * limb_base() + (limbs[2] as nat) * limb_base()
        * limb_base() + (limbs[3] as nat) * limb_base() * limb_base() * limb_base()
}

/// Product in the field.
pub open spec fn field_mul(a: nat, b: nat) -> nat {
    (a * b) % modulus()
}

/// Sum in the field.
pub open spec fn field_add(a: nat, b: nat) -> nat {
    (a + b) % modulus()
}

/// A field element, held as the limbs of an integer.
///
/// Any four limbs are accepted: an integer at or above the modulus stands for
/// its remainder.
#[derive(Clone, Copy, PartialEq, Eq, Debug)]
pub struct FieldElement {
    pub limbs: [u64; 4],
}

impl View for FieldElement {
    type V = nat;

    /// The element denoted: the limbs' integer, reduced.
    open spec fn view(&self) -> nat {
        limbs_value(self.limbs) % modulus()
    }
}

impl FieldElement {
    /// Whether the limbs spell the least representative of the element.
    pub open spec fn is_canonical(&self) -> bool {
        limbs_value(self.limbs) < modulus()
    }

    /// The additive identity.
    pub fn zero() -> (r: FieldElement)
        ensures
            r@ == 0,
            r.is_canonical(),
    {
        FieldElement { limbs: [0, 0, 0, 0] }
    }

    /// The multiplicative identity.
    pub fn one() -> (r: FieldElement)
        ensures
            r@ == 1,
            r.is_canonical(),
    {
        FieldElement { limbs: [1, 0, 0, 0] }
    }

    /// The element that a small integer denotes.
    pub fn from_u64(x: u64) -> (r: FieldElement)
        ensures
            r@ == x,
            r.is_canonical(),
    {
        FieldElement { limbs: [x, 0, 0, 0] }
    }

    /// The product of two elements, computed by `ark_ff`: the `Mul` of
    /// `ark_bn254::Fr`, between `PrimeField::from_le_bytes_mod_order`, which
    /// reduces the limbs' integer, and `PrimeField::into_bigint`, which hands
    /// back the least representative.
    #[verifier::external_body]
    pub(crate) fn mul(&self, rhs: &FieldElement) -> (r: FieldElement)
        ensures
            r@ == field_mul(self@, rhs@),
            r.is_canonical(),
    {
        let a = ark_bn254::Fr::from_le_bytes_mod_order(
            &ark_ff::BigInt::new(self.limbs).to_bytes_le(),
        );
        let b = ark_bn254::Fr::from_le_bytes_mod_order(
            &ark_ff::BigInt::new(rhs.limbs).to_bytes_le(),
        );
        FieldElement { limbs: (a * b).into_bigint().0 }
    }
}

/// The view of an optional element.
pub open spec fn option_value(value: Option<FieldElement>) -> Option<nat> {
    match value {
        Some(v) => Some(v@),
        None => None,
    }
}

} // verus!
