//! The BN254 groups G1 and G2 and their pairing, used as opaque values.

use crate::field::FieldElement;
use ark_ec::pairing::Pairing;
use ark_ec::{CurveGroup, Group};
use ark_ff::{BigInteger, PrimeField};
use vstd::prelude::*;

verus! {

/// A point of G1, held by ark_bn254 and opaque to proofs.
#[verifier::external_body]
#[derive(Debug, PartialEq, Eq)]
pub struct G1Element {
    point: ark_bn254::G1Projective,
}

impl Clone for G1Element {
    /// Relies on ark_ec's `Clone` for the point, which copies it.
    #[verifier::external_body]
    fn clone(&self) -> G1Element {
        G1Element { point: self.point }
    }
}

impl Copy for G1Element {

}

/// A point of G2, held by ark_bn254 and opaque to proofs.
#[verifier::external_body]
#[derive(Debug, PartialEq, Eq)]
pub struct G2Element {
    point: ark_bn254::G2Projective,
}

impl Clone for G2Element {
    /// Relies on ark_ec's `Clone` for the point, which copies it.
    #[verifier::external_body]
    fn clone(&self) -> G2Element {
        G2Element { point: self.point }
    }
}

impl Copy for G2Element {

}

/// The point `s g` in G1.
pub uninterp spec fn g1_mul_of(g: G1Element, s: int) -> G1Element;

/// The point `s g` in G2.
pub uninterp spec fn g2_mul_of(g: G2Element, s: int) -> G2Element;

/// The point `a + b` in G1.
pub uninterp spec fn g1_add_of(a: G1Element, b: G1Element) -> G1Element;

/// The point `a - b` in G1.
pub uninterp spec fn g1_sub_of(a: G1Element, b: G1Element) -> G1Element;

/// The point `a - b` in G2.
pub uninterp spec fn g2_sub_of(a: G2Element, b: G2Element) -> G2Element;

/// Whether `e(a, b) == e(c, d)`.
pub uninterp spec fn pairing_holds(a: G1Element, b: G2Element, c: G1Element, d: G2Element) -> bool;

/// The scalar that stands for a G1 point in transcripts.
pub uninterp spec fn g1_hash_of(g: G1Element) -> int;

/// Whether `g` is the identity of G1.
pub uninterp spec fn is_g1_identity(g: G1Element) -> bool;

/// Relies on ark_ec's `Group::generator` for G1.
#[verifier::external_body]
pub(crate) fn g1_generator() -> G1Element {
    G1Element { point: ark_bn254::G1Projective::generator() }
}

/// Relies on ark_ec's `Group::generator` for G2.
#[verifier::external_body]
pub(crate) fn g2_generator() -> G2Element {
    G2Element { point: ark_bn254::G2Projective::generator() }
}

/// Relies on ark_std's `Zero::zero` for G1: the identity.
#[verifier::external_body]
pub(crate) fn g1_identity() -> (r: G1Element)
    ensures
        is_g1_identity(r),
{
    G1Element { point: <ark_bn254::G1Projective as ark_std::Zero>::zero() }
}

/// Relies on ark_ec's scalar multiplication of G1 by `Fr`; the scalar is
/// the element's residue.
#[verifier::external_body]
pub(crate) fn g1_scale(g: &G1Element, s: &FieldElement) -> (r: G1Element)
    ensures
        r == g1_mul_of(*g, s.val()),
{
    G1Element { point: g.point * ark_bn254::Fr::new(ark_ff::BigInt::new(s.limbs())) }
}

/// Relies on ark_ec's scalar multiplication of G2 by `Fr`; the scalar is
/// the element's residue.
#[verifier::external_body]
pub(crate) fn g2_scale(g: &G2Element, s: &FieldElement) -> (r: G2Element)
    ensures
        r == g2_mul_of(*g, s.val()),
{
    G2Element { point: g.point * ark_bn254::Fr::new(ark_ff::BigInt::new(s.limbs())) }
}

/// Relies on ark_ec's addition in G1.
#[verifier::external_body]
pub(crate) fn g1_add(a: &G1Element, b: &G1Element) -> (r: G1Element)
    ensures
        r == g1_add_of(*a, *b),
{
    G1Element { point: a.point + b.point }
}

/// Relies on ark_ec's subtraction in G1.
#[verifier::external_body]
pub(crate) fn g1_sub(a: &G1Element, b: &G1Element) -> (r: G1Element)
    ensures
        r == g1_sub_of(*a, *b),
{
    G1Element { point: a.point - b.point }
}

/// Relies on ark_ec's subtraction in G2.
#[verifier::external_body]
pub(crate) fn g2_sub(a: &G2Element, b: &G2Element) -> (r: G2Element)
    ensures
        r == g2_sub_of(*a, *b),
{
    G2Element { point: a.point - b.point }
}

/// Relies on ark_ec's `Pairing::pairing` for BN254: whether `e(a, b) == e(c, d)`.
#[verifier::external_body]
pub(crate) fn pairings_equal(a: &G1Element, b: &G2Element, c: &G1Element, d: &G2Element) -> (r: bool)
    ensures
        r == pairing_holds(*a, *b, *c, *d),
{
    let left = ark_bn254::Bn254::pairing(a.point.into_affine(), b.point.into_affine());
    let right = ark_bn254::Bn254::pairing(c.point.into_affine(), d.point.into_affine());
    left == right
}

/// Relies on ark_ec's `into_affine` and ark_ff's `from_le_bytes_mod_order`:
/// the affine x-coordinate of `g` (zero for the identity), as its 32
/// little-endian bytes, reduced into the scalar field.
#[verifier::external_body]
pub(crate) fn g1_x_scalar(g: &G1Element) -> (r: FieldElement)
    ensures
        r.val() == g1_hash_of(*g),
{
    let x_bytes = g.point.into_affine().x.into_bigint().to_bytes_le();
    let f = ark_bn254::Fr::from_le_bytes_mod_order(&x_bytes);
    FieldElement::from_limbs(f.into_bigint().0)
}

} // verus!
