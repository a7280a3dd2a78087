//! Elements of the BN254 scalar field.
//!
//! A `FieldElement` holds its value as four little-endian 64-bit limbs; the
//! arithmetic itself is done by `ark_bn254::Fr`.

use ark_ff::{Field, PrimeField};
use vstd::arithmetic::div_mod::{
    lemma_add_mod_noop, lemma_mod_bound, lemma_mod_twice, lemma_mul_mod_noop, lemma_small_mod,
    lemma_sub_mod_noop,
};
use vstd::arithmetic::mul::{lemma_mul_is_associative, lemma_mul_is_distributive_add, lemma_mul_is_distributive_sub};
use vstd::prelude::*;

verus! {

/// The order of the BN254 scalar field.
pub open spec fn modulus() -> int {
    0x30644e72e131a029b85045b68181585d * pow2_64() * pow2_64() + 0x2833e84879b9709143e1f593f0000001
}

/// 2^64, the weight of one limb.
pub open spec fn pow2_64() -> int {
    0x1_0000_0000_0000_0000
}

/// An element of the scalar field F_r.
#[derive(Debug, Clone, Copy)]
pub struct FieldElement {
    limbs: [u64; 4],
}

/// The integer that four little-endian limbs spell.
pub open spec fn limbs_value(l: Seq<u64>) -> int {
    l[0] as int + pow2_64() * (l[1] as int + pow2_64() * (l[2] as int + pow2_64() * l[3] as int))
}

/// The little-endian 64-bit limbs of `v`, for `0 <= v < 2^256`.
pub open spec fn canon(v: int) -> Seq<u64> {
    seq![
        (v % pow2_64()) as u64,
        ((v / pow2_64()) % pow2_64()) as u64,
        ((v / (pow2_64() * pow2_64())) % pow2_64()) as u64,
        ((v / (pow2_64() * pow2_64() * pow2_64())) % pow2_64()) as u64,
    ]
}

/// The canonical 32-byte little-endian encoding of the residue `v`.
pub open spec fn element_bytes(v: int) -> Seq<u8> {
    limb_bytes(canon(v))
}

/// Sum in the field.
pub open spec fn fadd(a: int, b: int) -> int {
    (a + b) % modulus()
}

/// Difference in the field.
pub open spec fn fsub(a: int, b: int) -> int {
    (a - b) % modulus()
}

/// Product in the field.
pub open spec fn fmul(a: int, b: int) -> int {
    (a * b) % modulus()
}

proof fn lemma_small_value(x: FieldElement, n: int)
    requires
        0 <= n < pow2_64(),
        x.limbs@[0] == n,
        x.limbs@[1] == 0,
        x.limbs@[2] == 0,
        x.limbs@[3] == 0,
    ensures
        x.val() == n,
{
    assert(limbs_value(x.limb_seq()) == n);
    lemma_small_mod(n as nat, modulus() as nat);
}

impl FieldElement {
    /// The element that `from_u64(n)` builds.
    pub closed spec fn from_u64_spec(n: u64) -> FieldElement {
        FieldElement { limbs: [n, 0u64, 0u64, 0u64] }
    }

    /// The limbs, little-endian.
    pub closed spec fn limb_seq(self) -> Seq<u64> {
        self.limbs@
    }

    /// The residue this element stands for, in `0..modulus()`.
    pub open spec fn val(self) -> int {
        limbs_value(self.limb_seq()) % modulus()
    }

    pub fn limbs(&self) -> (r: [u64; 4])
        ensures
            r@ == self.limb_seq(),
    {
        self.limbs
    }

    pub fn zero() -> (r: FieldElement)
        ensures
            r.val() == 0,
    {
        let r = FieldElement { limbs: [0u64, 0u64, 0u64, 0u64] };
        proof {
            lemma_small_value(r, 0 as int);
        }
        r
    }

    pub fn one() -> (r: FieldElement)
        ensures
            r.val() == 1,
    {
        let r = FieldElement { limbs: [1u64, 0u64, 0u64, 0u64] };
        proof {
            lemma_small_value(r, 1 as int);
        }
        r
    }

    /// The element `n mod r`.
    pub fn from_u64(n: u64) -> (r: FieldElement)
        ensures
            r == FieldElement::from_u64_spec(n),
            r.val() == n as int,
    {
        let r = FieldElement { limbs: [n, 0u64, 0u64, 0u64] };
        proof {
            lemma_small_value(r, n as int);
        }
        r
    }

    pub fn add(&self, other: &FieldElement) -> (r: FieldElement)
        ensures
            r.val() == fadd(self.val(), other.val()),
    {
        self.ark_add(other)
    }

    /// Relies on ark_bn254's `Fr` addition, which is addition modulo r.
    #[verifier::external_body]
    fn ark_add(&self, other: &FieldElement) -> (r: FieldElement)
        ensures
            r.val() == fadd(self.val(), other.val()),
    {
        let s = ark_bn254::Fr::new(ark_ff::BigInt::new(self.limbs)) + ark_bn254::Fr::new(
            ark_ff::BigInt::new(other.limbs),
        );
        FieldElement { limbs: s.into_bigint().0 }
    }

    pub fn sub(&self, other: &FieldElement) -> (r: FieldElement)
        ensures
            r.val() == fsub(self.val(), other.val()),
    {
        self.ark_sub(other)
    }

    /// Relies on ark_bn254's `Fr` subtraction, which is subtraction modulo r.
    #[verifier::external_body]
    fn ark_sub(&self, other: &FieldElement) -> (r: FieldElement)
        ensures
            r.val() == fsub(self.val(), other.val()),
    {
        let s = ark_bn254::Fr::new(ark_ff::BigInt::new(self.limbs)) - ark_bn254::Fr::new(
            ark_ff::BigInt::new(other.limbs),
        );
        FieldElement { limbs: s.into_bigint().0 }
    }

    pub fn mul(&self, other: &FieldElement) -> (r: FieldElement)
        ensures
            r.val() == fmul(self.val(), other.val()),
    {
        self.ark_mul(other)
    }

    /// Relies on ark_bn254's `Fr` multiplication, which is multiplication modulo r.
    #[verifier::external_body]
    fn ark_mul(&self, other: &FieldElement) -> (r: FieldElement)
        ensures
            r.val() == fmul(self.val(), other.val()),
    {
        let s = ark_bn254::Fr::new(ark_ff::BigInt::new(self.limbs)) * ark_bn254::Fr::new(
            ark_ff::BigInt::new(other.limbs),
        );
        FieldElement { limbs: s.into_bigint().0 }
    }

    /// The element whose canonical little-endian limbs are `limbs`.
    pub fn from_limbs(limbs: [u64; 4]) -> (r: FieldElement)
        requires
            limbs_value(limbs@) < modulus(),
        ensures
            r.limb_seq() == limbs@,
            r.val() == limbs_value(limbs@),
    {
        let r = FieldElement { limbs };
        proof {
            lemma_reduced(limbs_value(limbs@));
        }
        r
    }

    /// The additive inverse.
    pub fn neg(&self) -> (r: FieldElement)
        ensures
            r.val() == fsub(0, self.val()),
    {
        FieldElement::zero().sub(self)
    }

    /// The multiplicative inverse; `None` for zero.
    pub fn inverse(&self) -> (r: Option<FieldElement>)
        ensures
            r is None <==> self.val() == 0,
            r matches Some(i) ==> fmul(self.val(), i.val()) == 1,
    {
        self.ark_inverse()
    }

    /// Relies on ark_ff's `Field::inverse`: `None` exactly for zero, and
    /// otherwise the element whose product with `self` is one.
    #[verifier::external_body]
    fn ark_inverse(&self) -> (r: Option<FieldElement>)
        ensures
            r is None <==> self.val() == 0,
            r matches Some(i) ==> fmul(self.val(), i.val()) == 1,
    {
        match ark_bn254::Fr::new(ark_ff::BigInt::new(self.limbs)).inverse() {
            Some(i) => Some(FieldElement { limbs: i.into_bigint().0 }),
            None => None,
        }
    }

    /// Relies on the equality of ark_bn254's `Fr`, which compares residues.
    #[verifier::external_body]
    fn same_residue(&self, other: &FieldElement) -> (r: bool)
        ensures
            r == (self.val() == other.val()),
    {
        ark_bn254::Fr::new(ark_ff::BigInt::new(self.limbs)) == ark_bn254::Fr::new(
            ark_ff::BigInt::new(other.limbs),
        )
    }

    pub fn is_zero(&self) -> (r: bool)
        ensures
            r == (self.val() == 0),
    {
        self.same_residue(&FieldElement::zero())
    }

    /// Relies on ark_ff's `PrimeField::into_bigint`: the canonical integer
    /// of the element (its residue), as little-endian 64-bit limbs.
    #[verifier::external_body]
    fn ark_canonical(&self) -> (r: [u64; 4])
        ensures
            r@ == canon(self.val()),
    {
        ark_bn254::Fr::new(ark_ff::BigInt::new(self.limbs)).into_bigint().0
    }

    /// The limbs of the residue.
    pub fn canonical_limbs(&self) -> (r: [u64; 4])
        ensures
            r@ == canon(self.val()),
    {
        self.ark_canonical()
    }

    /// The canonical encoding: the residue in 32 bytes, little-endian.
    pub fn to_bytes(&self) -> (r: Vec<u8>)
        ensures
            r@ == element_bytes(self.val()),
    {
        let limbs = self.canonical_limbs();
        let mut out: Vec<u8> = Vec::new();
        let mut i: usize = 0;
        while i < 32
            invariant
                i <= 32,
                limbs@ == canon(self.val()),
                out@ == limb_bytes(limbs@).take(i as int),
            decreases 32 - i,
        {
            let limb = limbs[i / 8];
            out.push(((limb >> (8 * (i % 8)) as u64) & 0xff) as u8);
            i = i + 1;
            proof {
                assert(out@ =~= limb_bytes(limbs@).take(i as int));
            }
        }
        proof {
            assert(out@ =~= limb_bytes(limbs@));
        }
        out
    }
}

/// Byte `i` of the little-endian encoding of four limbs.
pub open spec fn limb_byte(l: Seq<u64>, i: int) -> u8 {
    ((l[i / 8] >> (8 * (i % 8)) as u64) & 0xff) as u8
}

/// The 32-byte little-endian encoding of four limbs.
pub open spec fn limb_bytes(l: Seq<u64>) -> Seq<u8> {
    Seq::new(32, |i: int| limb_byte(l, i))
}

/// Field operations land in `0..modulus()`.
pub proof fn lemma_field_range(a: int, b: int)
    ensures
        0 <= fadd(a, b) < modulus(),
        0 <= fsub(a, b) < modulus(),
        0 <= fmul(a, b) < modulus(),
{
    lemma_mod_bound(a + b, modulus());
    lemma_mod_bound(a - b, modulus());
    lemma_mod_bound(a * b, modulus());
}

/// A residue is its own reduction.
pub proof fn lemma_reduced(a: int)
    requires
        0 <= a < modulus(),
    ensures
        a % modulus() == a,
{
    lemma_small_mod(a as nat, modulus() as nat);
}

pub proof fn lemma_fmul_comm(a: int, b: int)
    ensures
        fmul(a, b) == fmul(b, a),
{
    assert(a * b == b * a) by (nonlinear_arith);
}

pub proof fn lemma_fadd_reduce(a: int, b: int)
    ensures
        fadd(a % modulus(), b) == fadd(a, b),
        fadd(a, b % modulus()) == fadd(a, b),
        fsub(a % modulus(), b) == fsub(a, b),
        fsub(a, b % modulus()) == fsub(a, b),
        fmul(a % modulus(), b) == fmul(a, b),
        fmul(a, b % modulus()) == fmul(a, b),
{
    let m = modulus();
    lemma_add_mod_noop(a % m, b, m);
    lemma_add_mod_noop(a, b, m);
    lemma_mod_twice(a, m);
    lemma_mod_twice(b, m);
    lemma_add_mod_noop(a, b % m, m);
    lemma_sub_mod_noop(a % m, b, m);
    lemma_sub_mod_noop(a, b, m);
    lemma_sub_mod_noop(a, b % m, m);
    lemma_mul_mod_noop(a % m, b, m);
    lemma_mul_mod_noop(a, b, m);
    lemma_mul_mod_noop(a, b % m, m);
}

pub proof fn lemma_fmul_assoc(a: int, b: int, c: int)
    ensures
        fmul(fmul(a, b), c) == fmul(a, fmul(b, c)),
{
    lemma_fadd_reduce(a * b, c);
    lemma_fadd_reduce(a, b * c);
    lemma_mul_is_associative(a, b, c);
}

pub proof fn lemma_fmul_distrib(a: int, b: int, c: int)
    ensures
        fmul(a, fadd(b, c)) == fadd(fmul(a, b), fmul(a, c)),
        fmul(a, fsub(b, c)) == fsub(fmul(a, b), fmul(a, c)),
{
    let m = modulus();
    lemma_fadd_reduce(a, b + c);
    lemma_fadd_reduce(a, b - c);
    lemma_add_mod_noop(a * b, a * c, m);
    lemma_sub_mod_noop(a * b, a * c, m);
    lemma_mul_is_distributive_add(a, b, c);
    lemma_mul_is_distributive_sub(a, b, c);
}

/// The multiplicative inverse of a non-zero residue.
pub open spec fn finv(a: int) -> int {
    choose|i: int| 0 <= i < modulus() && fmul(a, i) == 1
}

/// An inverse, where one exists, is `finv`.
pub proof fn lemma_inverse_unique(a: int, i: int)
    requires
        0 <= i < modulus(),
        fmul(a, i) == 1,
    ensures
        finv(a) == i,
{
    let j = finv(a);
    assert(0 <= j < modulus() && fmul(a, j) == 1);
    lemma_reduced(i);
    lemma_reduced(j);
    lemma_fmul_assoc(i, a, j);
    lemma_fmul_comm(i, a);
    lemma_fadd_reduce(i, a * j);
    lemma_fadd_reduce(i * a, j);
    assert(i * 1 == i);
    assert(1 * j == j);
}

/// Distinct residues have a non-zero difference.
pub proof fn lemma_sub_nonzero(a: int, b: int)
    requires
        0 <= a < modulus(),
        0 <= b < modulus(),
        a != b,
    ensures
        fsub(a, b) != 0,
{
    if a > b {
        lemma_reduced(a - b);
    } else {
        assert((a - b + modulus()) % modulus() == (a - b) % modulus()) by {
            vstd::arithmetic::div_mod::lemma_mod_add_multiples_vanish(a - b, modulus());
        }
        lemma_reduced(a - b + modulus());
    }
}

impl PartialEq for FieldElement {
    fn eq(&self, other: &FieldElement) -> (r: bool) {
        self.same_residue(other)
    }
}

impl vstd::std_specs::cmp::PartialEqSpecImpl for FieldElement {
    open spec fn obeys_eq_spec() -> bool {
        true
    }

    open spec fn eq_spec(&self, other: &FieldElement) -> bool {
        self.val() == other.val()
    }
}

impl Eq for FieldElement {

}

impl From<u64> for FieldElement {
    fn from(n: u64) -> (r: FieldElement) {
        FieldElement::from_u64(n)
    }
}

impl vstd::std_specs::convert::FromSpecImpl<u64> for FieldElement {
    open spec fn obeys_from_spec() -> bool {
        true
    }

    open spec fn from_spec(n: u64) -> FieldElement {
        FieldElement::from_u64_spec(n)
    }
}

} // verus!
