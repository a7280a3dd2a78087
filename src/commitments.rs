//! KZG polynomial commitments over BN254, and vector commitments built on them.

use crate::field::{
    fadd, fmul, fsub, lemma_fadd_reduce, lemma_field_range, lemma_fmul_assoc, lemma_fmul_comm,
    lemma_reduced, limbs_value, modulus, FieldElement,
};
use crate::group::{
    g1_add, g1_add_of, g1_hash_of, g1_identity, g1_mul_of, g1_scale, g1_sub, g1_sub_of,
    g1_x_scalar, g2_mul_of, g2_scale, g2_sub, g2_sub_of, is_g1_identity, pairing_holds,
    pairings_equal, G1Element,
};
use crate::polynomials::poly_utils::{index_nodes, lagrange_sum, mul_linear};
use crate::polynomials::vals;
use crate::utils::{batch_state, challenge_value};
use crate::field::element_bytes;
use vstd::string::StringSliceAdditionalSpecFns;
use crate::polynomials::poly_utils::interpolate_vector;
use crate::utils::field_utils::{horner_eval, poly_eval};
use crate::utils::{CommitmentParams, CommitmentVerificationKey, Transcript};
use crate::TwistAndShoutError;
use vstd::prelude::*;

verus! {

/// A polynomial commitment scheme.
pub trait CommitmentScheme {
    type Commitment;
    type Proof;
    type Params;
    type VerifyKey;

    /// Commits to the polynomial with coefficients `polynomial`, constant term first.
    fn commit(params: &Self::Params, polynomial: &[FieldElement]) -> Result<
        Self::Commitment,
        TwistAndShoutError,
    >;

    /// The value at `point` and a proof of it.
    fn open(params: &Self::Params, polynomial: &[FieldElement], point: FieldElement) -> Result<
        (FieldElement, Self::Proof),
        TwistAndShoutError,
    >;

    /// Whether `proof` shows that the committed polynomial is `value` at `point`.
    fn verify(
        vk: &Self::VerifyKey,
        commitment: &Self::Commitment,
        point: FieldElement,
        value: FieldElement,
        proof: &Self::Proof,
    ) -> Result<bool, TwistAndShoutError>;

    /// Whether every opening of the batch holds.
    fn batch_verify(
        vk: &Self::VerifyKey,
        commitments: &[Self::Commitment],
        points: &[FieldElement],
        values: &[FieldElement],
        proofs: &[Self::Proof],
    ) -> Result<bool, TwistAndShoutError>;
}

/// A vector commitment scheme.
pub trait VectorCommitmentScheme {
    type Commitment;
    type Proof;
    type Params;
    type VerifyKey;

    /// Commits to `vector`.
    fn commit(params: &Self::Params, vector: &[FieldElement]) -> Result<
        Self::Commitment,
        TwistAndShoutError,
    >;

    /// The entry at `index` and a proof of it.
    fn open(params: &Self::Params, vector: &[FieldElement], index: usize) -> Result<
        (FieldElement, Self::Proof),
        TwistAndShoutError,
    >;

    /// Whether `proof` shows that entry `index` of the committed vector is `value`.
    fn verify(
        vk: &Self::VerifyKey,
        commitment: &Self::Commitment,
        index: usize,
        value: FieldElement,
        proof: &Self::Proof,
    ) -> Result<bool, TwistAndShoutError>;
}

/// The KZG polynomial commitment scheme.
#[derive(Debug, Clone)]
pub struct KZGCommitment;

/// A commitment: a point of G1.
#[derive(Debug, Clone, Copy)]
pub struct KZGCommitmentValue {
    pub commitment: G1Element,
}

impl KZGCommitmentValue {
    /// A field element standing for the commitment in transcripts: the
    /// x-coordinate of the point, reduced into the scalar field.
    pub fn hash(&self) -> (r: FieldElement)
        ensures
            r.val() == g1_hash_of(self.commitment),
    {
        g1_x_scalar(&self.commitment)
    }
}

/// An opening proof: a point of G1.
#[derive(Debug, Clone, Copy)]
pub struct KZGProof {
    pub proof: G1Element,
}

/// `start + sum_{i < k} coeffs[i] powers[i]`, added up from the left.
pub open spec fn msm(start: G1Element, coeffs: Seq<int>, powers: Seq<G1Element>, k: nat) -> G1Element
    decreases k,
{
    if k == 0 {
        start
    } else {
        g1_add_of(msm(start, coeffs, powers, (k - 1) as nat), g1_mul_of(powers[k - 1], coeffs[k - 1]))
    }
}

/// `c` is the commitment to the polynomial with coefficients `coeffs`:
/// `sum_i coeffs[i] powers[i]`, added up from the identity.
pub open spec fn commits_to(c: G1Element, coeffs: Seq<int>, powers: Seq<G1Element>) -> bool {
    exists|z: G1Element| is_g1_identity(z) && c == msm(z, coeffs, powers, coeffs.len())
}

/// The opening check `e(C - [v]_1, [1]_2) == e(proof, [tau]_2 - [z]_2)`.
pub open spec fn kzg_accepts(
    vk: CommitmentVerificationKey,
    c: G1Element,
    z: int,
    v: int,
    proof: G1Element,
) -> bool {
    pairing_holds(
        g1_sub_of(c, g1_mul_of(vk.g1_generator, v)),
        vk.g2_generator,
        proof,
        g2_sub_of(vk.g2_tau, g2_mul_of(vk.g2_generator, z)),
    )
}

/// `p(x) = (x - z) q(x) + v`, coefficient by coefficient.
pub open spec fn quotient_exact(q: Seq<int>, p: Seq<int>, z: int, v: int) -> bool {
    forall|k: int|
        0 <= k < p.len() ==> #[trigger] p[k] == fadd(
            mul_linear(q, z, 1)[k],
            if k == 0 {
                v
            } else {
                0
            },
        )
}

/// Only the terms `t = k - 1` and `t = k` of a product with a linear
/// divisor contribute to coefficient `k`.
proof fn lemma_pc_window(q: Seq<FieldElement>, d: Seq<FieldElement>, k: int, lo: int, hi: int)
    requires
        d.len() == 2,
        0 <= lo <= hi <= q.len(),
    ensures
        product_coeff(q, d, k, lo, hi) == fadd(
            if lo <= k - 1 < hi { fmul(q[k - 1].val(), d[1].val()) } else { 0 },
            if lo <= k < hi { fmul(q[k].val(), d[0].val()) } else { 0 },
        ),
    decreases hi - lo,
{
    lemma_reduced(0);
    if lo < hi {
        lemma_pc_window(q, d, k, lo + 1, hi);
        let a = if lo + 1 <= k - 1 < hi { fmul(q[k - 1].val(), d[1].val()) } else { 0 };
        let b = if lo + 1 <= k < hi { fmul(q[k].val(), d[0].val()) } else { 0 };
        lemma_field_range(q[k - 1].val(), d[1].val());
        lemma_field_range(q[k].val(), d[0].val());
        lemma_field_range(a, b);
        lemma_reduced(fadd(a, b));
        if lo == k - 1 {
            lemma_reduced(b);
            assert(fadd(0, b) == b);
        } else if lo == k {
            lemma_reduced(fmul(q[k].val(), d[0].val()));
        } else {
            assert(div_term(q, d, k, lo) == 0);
        }
    } else {
        assert(fadd(0, 0) == 0);
    }
}

/// Coefficient `k >= 1` of `q (x - z)`, computed by the division, is that of `mul_linear`.
proof fn lemma_pc_linear(q: Seq<FieldElement>, d: Seq<FieldElement>, k: int, z: int)
    requires
        d.len() == 2,
        d[0].val() == fsub(0, z),
        d[1].val() == 1,
        1 <= k <= q.len(),
    ensures
        product_coeff(q, d, k, 0, q.len() as int) == mul_linear(vals(q), z, 1)[k],
{
    lemma_pc_window(q, d, k, 0, q.len() as int);
    let qk1 = q[k - 1].val();
    assert(vals(q)[k - 1] == qk1);
    lemma_reduced(qk1);
    assert(qk1 * 1 == qk1);
    lemma_reduced(0);
    if k < q.len() {
        let qk = q[k].val();
        assert(vals(q)[k] == qk);
        crate::field::lemma_fmul_distrib(qk, 0, z);
        assert(qk * 0 == 0);
        lemma_fadd_reduce(qk1, -fmul(qk, z));
        lemma_fadd_reduce(0, fmul(qk, z));
        assert(fsub(0, fmul(qk, z)) == (0 - fmul(qk, z)) % modulus());
        lemma_fadd_reduce(qk1, 0 - fmul(qk, z));
        lemma_field_range(qk1, fmul(qk, z));
        lemma_reduced(fsub(qk1, fmul(qk, z)));
        assert(fsub(qk1, fmul(qk, z)) * 1 == fsub(qk1, fmul(qk, z)));
    } else {
        assert(fadd(qk1, 0) == qk1);
        assert(fsub(qk1, 0) == qk1);
    }
}

/// The transcript bytes that a batch of `k` openings contributes.
pub open spec fn batch_absorb(
    cs: Seq<KZGCommitmentValue>,
    zs: Seq<FieldElement>,
    vs: Seq<FieldElement>,
    ps: Seq<KZGProof>,
    k: nat,
) -> Seq<u8>
    decreases k,
{
    if k == 0 {
        Seq::empty()
    } else {
        batch_absorb(cs, zs, vs, ps, (k - 1) as nat) + "batch_commitment".spec_bytes() + element_bytes(
            g1_hash_of(cs[k - 1].commitment),
        ) + "batch_point".spec_bytes() + element_bytes(zs[k - 1].val()) + "batch_value".spec_bytes()
            + element_bytes(vs[k - 1].val()) + "batch_proof".spec_bytes() + element_bytes(
            g1_hash_of(ps[k - 1].proof),
        )
    }
}

/// The batch coefficients: the challenges drawn after absorbing the batch.
pub open spec fn batch_coefficients(state: Seq<u8>, n: nat) -> Seq<int> {
    Seq::new(n, |i: int| challenge_value(batch_state(state, "batch_coefficients".spec_bytes(), (i + 1) as nat)))
}

/// `start + sum_{i < k} g_i (C_i - [v_i]_1 + z_i proof_i)`.
pub open spec fn batch_left(
    vk: CommitmentVerificationKey,
    start: G1Element,
    cs: Seq<KZGCommitmentValue>,
    zs: Seq<FieldElement>,
    vs: Seq<FieldElement>,
    ps: Seq<KZGProof>,
    gs: Seq<int>,
    k: nat,
) -> G1Element
    decreases k,
{
    if k == 0 {
        start
    } else {
        let shifted = g1_add_of(
            g1_sub_of(cs[k - 1].commitment, g1_mul_of(vk.g1_generator, vs[k - 1].val())),
            g1_mul_of(ps[k - 1].proof, zs[k - 1].val()),
        );
        g1_add_of(batch_left(vk, start, cs, zs, vs, ps, gs, (k - 1) as nat), g1_mul_of(shifted, gs[k - 1]))
    }
}

/// `start + sum_{i < k} g_i proof_i`.
pub open spec fn batch_right(start: G1Element, ps: Seq<KZGProof>, gs: Seq<int>, k: nat) -> G1Element
    decreases k,
{
    if k == 0 {
        start
    } else {
        g1_add_of(batch_right(start, ps, gs, (k - 1) as nat), g1_mul_of(ps[k - 1].proof, gs[k - 1]))
    }
}

/// The quotient length that dividing `n` coefficients by `m` gives.
pub open spec fn quotient_len(n: int, m: int) -> int {
    if n < m {
        0
    } else {
        n - m + 1
    }
}

impl KZGCommitment {
    /// `C = sum_i coeffs[i] [tau^i]_1`; refused when the polynomial has more
    /// coefficients than the reference string has powers.
    pub fn commit(params: &CommitmentParams, polynomial: &[FieldElement]) -> (r: Result<
        KZGCommitmentValue,
        TwistAndShoutError,
    >)
        ensures
            r is Err <==> polynomial.len() > params.g1_powers.len(),
            r is Err ==> r->Err_0 is Commitment,
            r is Ok ==> commits_to(r->Ok_0.commitment, vals(polynomial@), params.g1_powers@),
    {
        if polynomial.len() > params.g1_powers.len() {
            return Err(
                TwistAndShoutError::Commitment("Polynomial degree exceeds setup size".to_string()),
            );
        }
        let zero = g1_identity();
        let mut commitment = zero;
        let mut i: usize = 0;
        while i < polynomial.len()
            invariant
                i <= polynomial.len() <= params.g1_powers.len(),
                commitment == msm(zero, vals(polynomial@), params.g1_powers@, i as nat),
            decreases polynomial.len() - i,
        {
            let term = g1_scale(&params.g1_powers[i], &polynomial[i]);
            commitment = g1_add(&commitment, &term);
            i = i + 1;
            proof {
                assert(vals(polynomial@)[i - 1] == polynomial[i - 1].val());
            }
        }
        proof {
            assert(vals(polynomial@).len() == polynomial.len());
        }
        Ok(KZGCommitmentValue { commitment })
    }

    /// Opens at `point`: the value `P(point)` and a commitment to the
    /// quotient `(P(x) - P(point)) / (x - point)`.
    pub fn open(params: &CommitmentParams, polynomial: &[FieldElement], point: FieldElement) -> (r:
        Result<(FieldElement, KZGProof), TwistAndShoutError>)
        ensures
            r is Err <==> quotient_len(polynomial.len() as int, 2) > params.g1_powers.len(),
            r is Err ==> r->Err_0 is Commitment,
            r is Ok ==> r->Ok_0.0.val() == poly_eval(polynomial@, point.val()),
            r is Ok ==> exists|q: Seq<FieldElement>|
                q.len() == quotient_len(polynomial.len() as int, 2) && quotient_exact(
                    vals(q),
                    vals(polynomial@),
                    point.val(),
                    r->Ok_0.0.val(),
                ) && commits_to(r->Ok_0.1.proof, vals(q), params.g1_powers@),
    {
        let value = evaluate_polynomial(polynomial, point);
        let quotient = compute_quotient_polynomial(polynomial, point, value);
        let ghost q = quotient@;
        match KZGCommitment::commit(params, quotient.as_slice()) {
            Ok(c) => Ok((value, KZGProof { proof: c.commitment })),
            Err(e) => Err(e),
        }
    }

    /// The pairing check `e(C - [value]_1, [1]_2) == e(proof, [tau]_2 - [point]_2)`.
    pub fn verify(
        vk: &CommitmentVerificationKey,
        commitment: &KZGCommitmentValue,
        point: FieldElement,
        value: FieldElement,
        proof: &KZGProof,
    ) -> (r: Result<bool, TwistAndShoutError>)
        ensures
            r == Ok::<bool, TwistAndShoutError>(
                kzg_accepts(*vk, commitment.commitment, point.val(), value.val(), proof.proof),
            ),
    {
        let value_in_g1 = g1_scale(&vk.g1_generator, &value);
        let left_g1 = g1_sub(&commitment.commitment, &value_in_g1);
        let point_in_g2 = g2_scale(&vk.g2_generator, &point);
        let right_g2 = g2_sub(&vk.g2_tau, &point_in_g2);
        Ok(pairings_equal(&left_g1, &vk.g2_generator, &proof.proof, &right_g2))
    }

    /// Checks all openings with one pairing equation on a random linear
    /// combination: each opening holds exactly when
    /// `e(C - [v]_1 + z proof, [1]_2) == e(proof, [tau]_2)`, and the batch
    /// checks `e(sum_i g_i (C_i - [v_i]_1 + z_i proof_i), [1]_2) ==
    /// e(sum_i g_i proof_i, [tau]_2)`. The coefficients `g_i` are challenges
    /// of a transcript that has absorbed every commitment, point, value and
    /// proof of the batch.
    pub fn batch_verify(
        vk: &CommitmentVerificationKey,
        commitments: &[KZGCommitmentValue],
        points: &[FieldElement],
        values: &[FieldElement],
        proofs: &[KZGProof],
    ) -> (r: Result<bool, TwistAndShoutError>)
        ensures
            r is Err <==> !(commitments.len() == points.len() && points.len() == values.len()
                && values.len() == proofs.len()),
            r is Err ==> r->Err_0 is Commitment,
            r is Ok && commitments.len() == 0 ==> r == Ok::<bool, TwistAndShoutError>(true),
            r is Ok && commitments.len() > 0 ==> ({
                let n = commitments.len() as nat;
                let gs = batch_coefficients(
                    batch_absorb(commitments@, points@, values@, proofs@, n),
                    n,
                );
                exists|z: G1Element|
                    is_g1_identity(z) && r == Ok::<bool, TwistAndShoutError>(
                        pairing_holds(
                            batch_left(*vk, z, commitments@, points@, values@, proofs@, gs, n),
                            vk.g2_generator,
                            batch_right(z, proofs@, gs, n),
                            vk.g2_tau,
                        ),
                    )
            }),
    {
        if commitments.len() != points.len() || points.len() != values.len() || values.len()
            != proofs.len() {
            return Err(
                TwistAndShoutError::Commitment(
                    "Batch verify input lengths must match".to_string(),
                ),
            );
        }
        let n = commitments.len();
        if n == 0 {
            return Ok(true);
        }
        let mut transcript = Transcript::new(&[0u8; 32]);
        let mut i: usize = 0;
        while i < n
            invariant
                i <= n == commitments.len() == points.len() == values.len() == proofs.len(),
                transcript.state() == batch_absorb(commitments@, points@, values@, proofs@, i as nat),
            decreases n - i,
        {
            transcript.append_field_element("batch_commitment".as_bytes(), &commitments[i].hash());
            transcript.append_field_element("batch_point".as_bytes(), &points[i]);
            transcript.append_field_element("batch_value".as_bytes(), &values[i]);
            let proof_hash = KZGCommitmentValue { commitment: proofs[i].proof }.hash();
            transcript.append_field_element("batch_proof".as_bytes(), &proof_hash);
            i = i + 1;
        }
        let ghost absorbed = transcript.state();
        let challenges = transcript.challenge_field_elements("batch_coefficients".as_bytes(), n);
        let ghost gs = batch_coefficients(absorbed, n as nat);
        proof {
            assert(vals(challenges@) =~= gs);
        }
        let zero = g1_identity();
        let mut batched_left = zero;
        let mut batched_proof = zero;
        let mut i: usize = 0;
        while i < n
            invariant
                i <= n == commitments.len() == points.len() == values.len() == proofs.len(),
                challenges.len() == n,
                vals(challenges@) == gs,
                batched_left == batch_left(*vk, zero, commitments@, points@, values@, proofs@, gs, i as nat),
                batched_proof == batch_right(zero, proofs@, gs, i as nat),
            decreases n - i,
        {
            let gamma = challenges[i];
            proof {
                assert(gs[i as int] == gamma.val());
            }
            let value_in_g1 = g1_scale(&vk.g1_generator, &values[i]);
            let shifted = g1_add(
                &g1_sub(&commitments[i].commitment, &value_in_g1),
                &g1_scale(&proofs[i].proof, &points[i]),
            );
            batched_left = g1_add(&batched_left, &g1_scale(&shifted, &gamma));
            batched_proof = g1_add(&batched_proof, &g1_scale(&proofs[i].proof, &gamma));
            i = i + 1;
        }
        Ok(pairings_equal(&batched_left, &vk.g2_generator, &batched_proof, &vk.g2_tau))
    }
}

/// The value of a polynomial at `point`; zero for the empty polynomial.
fn evaluate_polynomial(coeffs: &[FieldElement], point: FieldElement) -> (r: FieldElement)
    ensures
        r.val() == poly_eval(coeffs@, point.val()),
{
    if coeffs.len() == 0 {
        return FieldElement::zero();
    }
    horner_eval(coeffs, point)
}

/// `(P(x) - value) / (x - point)`, for `value = P(point)`: the division is exact.
fn compute_quotient_polynomial(poly: &[FieldElement], point: FieldElement, value: FieldElement) -> (r:
    Vec<FieldElement>)
    requires
        value.val() == poly_eval(poly@, point.val()),
    ensures
        r.len() == quotient_len(poly.len() as int, 2),
        quotient_exact(vals(r@), vals(poly@), point.val(), value.val()),
{
    let mut divisor: Vec<FieldElement> = Vec::new();
    divisor.push(point.neg());
    divisor.push(FieldElement::one());
    if poly.len() == 0 {
        let q: Vec<FieldElement> = Vec::new();
        return q;
    }
    let mut shifted_poly: Vec<FieldElement> = Vec::new();
    let mut i: usize = 0;
    while i < poly.len()
        invariant
            i <= poly.len(),
            shifted_poly.len() == i,
            forall|k: int| 0 <= k < i ==> #[trigger] shifted_poly[k] == poly[k],
        decreases poly.len() - i,
    {
        shifted_poly.push(poly[i]);
        i = i + 1;
    }
    let c = shifted_poly[0].sub(&value);
    shifted_poly.set(0, c);
    match polynomial_division(shifted_poly.as_slice(), divisor.as_slice()) {
        Ok(q) => {
            proof {
                let d = divisor@;
                let z = point.val();
                let pv = vals(poly@);
                let qv = vals(q@);
                assert(d.len() == 2 && d[0].val() == fsub(0, z) && d[1].val() == 1);
                assert forall|k: int| 1 <= k < pv.len() implies #[trigger] pv[k] == mul_linear(qv, z, 1)[k] by {
                    assert(shifted_poly[k] == poly[k]);
                    assert(poly[k].val() == product_coeff(q@, d, k, 0, q.len() as int));
                    lemma_pc_linear(q@, d, k, z);
                }
                assert forall|k: int| 0 <= k < pv.len() implies 0 <= #[trigger] pv[k] < modulus() by {
                    vstd::arithmetic::div_mod::lemma_mod_bound(limbs_value(poly[k].limb_seq()), modulus());
                }
                crate::utils::field_utils::lemma_poly_eval_vals(poly@, z);
                crate::polynomials::poly_utils::lemma_linear_quotient(pv, qv, z, value.val());
                assert forall|k: int| 0 <= k < pv.len() implies #[trigger] pv[k] == fadd(
                    mul_linear(qv, z, 1)[k],
                    if k == 0 { value.val() } else { 0 },
                ) by {
                    if k > 0 {
                        lemma_reduced(pv[k]);
                    }
                }
            }
            q
        },
        Err(_) => {
            proof {
                assert(divisor[1].val() == 1);
            }
            Vec::new()
        },
    }
}

/// The contribution of quotient coefficient `t` to coefficient `k` of
/// `quotient * divisor`.
pub open spec fn div_term(q: Seq<FieldElement>, d: Seq<FieldElement>, k: int, t: int) -> int {
    if 0 <= k - t < d.len() {
        fmul(q[t].val(), d[k - t].val())
    } else {
        0
    }
}

/// `sum_{lo <= t < hi} div_term(q, d, k, t)`: with `lo = 0` and `hi = q.len()`,
/// coefficient `k` of the product `q * d`.
pub open spec fn product_coeff(q: Seq<FieldElement>, d: Seq<FieldElement>, k: int, lo: int, hi: int) -> int
    decreases hi - lo,
{
    if lo >= hi {
        0
    } else {
        fadd(div_term(q, d, k, lo), product_coeff(q, d, k, lo + 1, hi))
    }
}

proof fn lemma_product_coeff_frame(
    q1: Seq<FieldElement>,
    q2: Seq<FieldElement>,
    d: Seq<FieldElement>,
    k: int,
    lo: int,
    hi: int,
)
    requires
        0 <= lo,
        hi <= q1.len(),
        hi <= q2.len(),
        forall|t: int| lo <= t < hi ==> #[trigger] q1[t].val() == q2[t].val(),
    ensures
        product_coeff(q1, d, k, lo, hi) == product_coeff(q2, d, k, lo, hi),
    decreases hi - lo,
{
    if lo < hi {
        lemma_product_coeff_frame(q1, q2, d, k, lo + 1, hi);
        assert(q1[lo].val() == q2[lo].val());
    }
}

proof fn lemma_product_coeff_range(q: Seq<FieldElement>, d: Seq<FieldElement>, k: int, lo: int, hi: int)
    ensures
        0 <= product_coeff(q, d, k, lo, hi) < modulus(),
    decreases hi - lo,
{
    if lo < hi {
        lemma_field_range(div_term(q, d, k, lo), product_coeff(q, d, k, lo + 1, hi));
    }
}

/// Long division of `dividend` by `divisor`, returning the quotient `q`:
/// every coefficient of `dividend` from the divisor's degree up equals that
/// of `q * divisor`, so the remainder has lower degree than the divisor. An
/// error where the divisor is empty or its leading coefficient is zero.
pub fn polynomial_division(dividend: &[FieldElement], divisor: &[FieldElement]) -> (r: Result<
    Vec<FieldElement>,
    TwistAndShoutError,
>)
    ensures
        r is Err <==> (divisor.len() == 0 || divisor[divisor.len() - 1].val() == 0),
        r is Err ==> r->Err_0 is Polynomial,
        r is Ok ==> r->Ok_0.len() == quotient_len(dividend.len() as int, divisor.len() as int),
        r is Ok ==> forall|k: int|
            divisor.len() - 1 <= k < dividend.len() ==> #[trigger] dividend[k].val()
                == product_coeff(r->Ok_0@, divisor@, k, 0, r->Ok_0.len() as int),
{
    if divisor.len() == 0 || all_zero(divisor) {
        return Err(TwistAndShoutError::Polynomial("Cannot divide by zero polynomial".to_string()));
    }
    let divisor_degree = divisor.len() - 1;
    let leading_coeff = divisor[divisor_degree];
    let leading_coeff_inv = match leading_coeff.inverse() {
        Some(v) => v,
        None => {
            return Err(
                TwistAndShoutError::Polynomial(
                    "Divisor must have non-zero leading coefficient".to_string(),
                ),
            );
        },
    };
    if dividend.len() < divisor.len() {
        return Ok(Vec::new());
    }
    let mut remainder: Vec<FieldElement> = Vec::new();
    let mut k: usize = 0;
    while k < dividend.len()
        invariant
            k <= dividend.len(),
            remainder@ == dividend@.take(k as int),
        decreases dividend.len() - k,
    {
        remainder.push(dividend[k]);
        k = k + 1;
        proof {
            assert(remainder@ =~= dividend@.take(k as int));
        }
    }
    proof {
        assert(remainder@ =~= dividend@);
    }
    let n = remainder.len();
    let quotient_degree = n - divisor.len();
    let mut quotient = crate::polynomials::zeros(quotient_degree + 1);
    let ghost q_end = quotient_degree + 1;
    let mut i: usize = quotient_degree + 1;
    proof {
        assert forall|k: int| 0 <= k < n implies #[trigger] fadd(
            remainder[k].val(),
            product_coeff(quotient@, divisor@, k, i as int, q_end),
        ) == dividend[k].val() by {
            lemma_reduced(dividend[k].val());
            assert(remainder[k] == dividend[k]);
        }
    }
    while i > 0
        invariant
            i <= quotient_degree + 1 == q_end,
            quotient_degree + divisor.len() == n == remainder.len() == dividend.len(),
            divisor_degree + 1 == divisor.len(),
            quotient.len() == quotient_degree + 1,
            leading_coeff == divisor[divisor_degree as int],
            fmul(leading_coeff.val(), leading_coeff_inv.val()) == 1,
            forall|k: int|
                0 <= k < n ==> #[trigger] fadd(
                    remainder[k].val(),
                    product_coeff(quotient@, divisor@, k, i as int, q_end),
                ) == dividend[k].val(),
            forall|k: int| i + divisor_degree <= k < n ==> #[trigger] remainder[k].val() == 0,
        decreases i,
    {
        i = i - 1;
        let coeff = remainder[i + divisor_degree].mul(&leading_coeff_inv);
        let ghost q_before = quotient@;
        quotient.set(i, coeff);
        proof {
            assert forall|k: int| 0 <= k < n implies #[trigger] product_coeff(quotient@, divisor@, k, i + 1, q_end)
                == product_coeff(q_before, divisor@, k, i + 1, q_end) by {
                lemma_product_coeff_frame(quotient@, q_before, divisor@, k, i + 1, q_end);
            }
        }
        let ghost rem0 = remainder@;
        let mut j: usize = 0;
        while j < divisor.len()
            invariant
                j <= divisor.len(),
                i <= quotient_degree,
                quotient_degree + divisor.len() == n == remainder.len(),
                rem0.len() == n,
                forall|k: int|
                    0 <= k < n ==> #[trigger] remainder[k].val() == if i <= k < i + j {
                        fsub(rem0[k].val(), fmul(coeff.val(), divisor[k - i].val()))
                    } else {
                        rem0[k].val()
                    },
            decreases divisor.len() - j,
        {
            let v = remainder[i + j].sub(&coeff.mul(&divisor[j]));
            remainder.set(i + j, v);
            j = j + 1;
        }
        proof {
            assert(quotient[i as int] == coeff);
            assert forall|k: int| 0 <= k < n implies #[trigger] fadd(
                remainder[k].val(),
                product_coeff(quotient@, divisor@, k, i as int, q_end),
            ) == dividend[k].val() by {
                let s_next = product_coeff(quotient@, divisor@, k, i + 1, q_end);
                let x = div_term(quotient@, divisor@, k, i as int);
                let a = rem0[k].val();
                assert(fadd(a, product_coeff(q_before, divisor@, k, i + 1, q_end)) == dividend[k].val());
                lemma_fadd_reduce(a - x, x + s_next);
                lemma_fadd_reduce(a - x, (x + s_next) % modulus());
                lemma_fadd_reduce((a - x) % modulus(), (x + s_next) % modulus());
                if i <= k < i + divisor.len() {
                    assert(remainder[k].val() == fsub(a, x));
                    assert(fadd(fsub(a, x), fadd(x, s_next)) == (a - x + (x + s_next)) % modulus());
                    assert(a - x + (x + s_next) == a + s_next);
                } else {
                    assert(x == 0);
                    lemma_product_coeff_range(quotient@, divisor@, k, i + 1, q_end);
                    lemma_reduced(s_next);
                    assert(fadd(0, s_next) == s_next);
                }
            }
            let top = (i + divisor_degree) as int;
            let r0 = rem0[top].val();
            lemma_fmul_assoc(r0, leading_coeff_inv.val(), leading_coeff.val());
            lemma_fmul_comm(leading_coeff_inv.val(), leading_coeff.val());
            lemma_reduced(r0);
            assert(r0 * 1 == r0);
            assert(fmul(coeff.val(), divisor[top - i].val()) == r0);
            assert(remainder[top].val() == fsub(r0, r0));
        }
    }
    proof {
        assert forall|k: int|
            divisor.len() - 1 <= k < dividend.len() implies #[trigger] dividend[k].val()
                == product_coeff(quotient@, divisor@, k, 0, quotient.len() as int) by {
            assert(i == 0);
            assert(remainder[k].val() == 0);
            assert(fadd(remainder[k].val(), product_coeff(quotient@, divisor@, k, 0, q_end)) == dividend[k].val());
            lemma_product_coeff_range(quotient@, divisor@, k, 0, q_end);
            lemma_reduced(product_coeff(quotient@, divisor@, k, 0, q_end));
        }
    }
    Ok(quotient)
}

/// Whether every coefficient is zero.
fn all_zero(p: &[FieldElement]) -> (r: bool)
    ensures
        r <==> forall|i: int| 0 <= i < p.len() ==> #[trigger] p[i].val() == 0,
{
    let mut i: usize = 0;
    while i < p.len()
        invariant
            i <= p.len(),
            forall|k: int| 0 <= k < i ==> #[trigger] p[k].val() == 0,
        decreases p.len() - i,
    {
        if !p[i].is_zero() {
            return false;
        }
        i = i + 1;
    }
    true
}

/// Vector commitments: KZG on the polynomial through `(i, vector[i])`.
pub struct KZGVectorCommitment;

impl KZGVectorCommitment {
    /// Commits to the interpolating polynomial of the vector.
    pub fn commit(params: &CommitmentParams, vector: &[FieldElement]) -> (r: Result<
        KZGCommitmentValue,
        TwistAndShoutError,
    >)
        requires
            vector.len() < usize::MAX,
        ensures
            r is Err <==> vector.len() > params.g1_powers.len(),
            r is Err ==> r->Err_0 is Commitment,
            r is Ok ==> commits_to(
                r->Ok_0.commitment,
                lagrange_sum(index_nodes(vector.len() as nat), vals(vector@), vector.len() as nat),
                params.g1_powers@,
            ),
    {
        let poly = interpolate_vector(vector);
        KZGCommitment::commit(params, poly.as_slice())
    }

    /// Opens the commitment at `index`; the value returned is `vector[index]`,
    /// and an interpolant that disagrees with it is reported as an error.
    pub fn open(params: &CommitmentParams, vector: &[FieldElement], index: usize) -> (r: Result<
        (FieldElement, KZGProof),
        TwistAndShoutError,
    >)
        requires
            vector.len() < usize::MAX,
        ensures
            index >= vector.len() ==> r is Err,
            index < vector.len() ==> (r is Ok <==> quotient_len(vector.len() as int, 2)
                <= params.g1_powers.len()),
            r is Err ==> r->Err_0 is Commitment,
            r is Ok ==> r->Ok_0.0 == vector[index as int],
            r is Ok ==> exists|q: Seq<FieldElement>|
                q.len() == quotient_len(vector.len() as int, 2) && quotient_exact(
                    vals(q),
                    lagrange_sum(index_nodes(vector.len() as nat), vals(vector@), vector.len() as nat),
                    index as int,
                    vector[index as int].val(),
                ) && commits_to(r->Ok_0.1.proof, vals(q), params.g1_powers@),
    {
        if index >= vector.len() {
            return Err(TwistAndShoutError::Commitment("Index out of bounds".to_string()));
        }
        let value = vector[index];
        let point = FieldElement::from_u64(index as u64);
        let poly = interpolate_vector(vector);
        proof {
            crate::utils::field_utils::lemma_poly_eval_vals(poly@, point.val());
        }
        let (opened_value, proof) = match KZGCommitment::open(params, poly.as_slice(), point) {
            Ok(v) => v,
            Err(e) => {
                return Err(e);
            },
        };
        if !(opened_value == value) {
            return Err(
                TwistAndShoutError::Commitment(
                    "Opened value does not match vector entry".to_string(),
                ),
            );
        }
        Ok((value, proof))
    }

    /// Checks an opening at `index`.
    pub fn verify(
        vk: &CommitmentVerificationKey,
        commitment: &KZGCommitmentValue,
        index: usize,
        value: FieldElement,
        proof: &KZGProof,
    ) -> (r: Result<bool, TwistAndShoutError>)
        ensures
            r == Ok::<bool, TwistAndShoutError>(
                kzg_accepts(*vk, commitment.commitment, index as int, value.val(), proof.proof),
            ),
    {
        let point = FieldElement::from_u64(index as u64);
        KZGCommitment::verify(vk, commitment, point, value, proof)
    }
}

impl CommitmentScheme for KZGCommitment {
    type Commitment = KZGCommitmentValue;
    type Proof = KZGProof;
    type Params = CommitmentParams;
    type VerifyKey = CommitmentVerificationKey;

    fn commit(params: &CommitmentParams, polynomial: &[FieldElement]) -> Result<
        KZGCommitmentValue,
        TwistAndShoutError,
    > {
        KZGCommitment::commit(params, polynomial)
    }

    fn open(params: &CommitmentParams, polynomial: &[FieldElement], point: FieldElement) -> Result<
        (FieldElement, KZGProof),
        TwistAndShoutError,
    > {
        KZGCommitment::open(params, polynomial, point)
    }

    fn verify(
        vk: &CommitmentVerificationKey,
        commitment: &KZGCommitmentValue,
        point: FieldElement,
        value: FieldElement,
        proof: &KZGProof,
    ) -> Result<bool, TwistAndShoutError> {
        KZGCommitment::verify(vk, commitment, point, value, proof)
    }

    fn batch_verify(
        vk: &CommitmentVerificationKey,
        commitments: &[KZGCommitmentValue],
        points: &[FieldElement],
        values: &[FieldElement],
        proofs: &[KZGProof],
    ) -> Result<bool, TwistAndShoutError> {
        KZGCommitment::batch_verify(vk, commitments, points, values, proofs)
    }
}

impl VectorCommitmentScheme for KZGVectorCommitment {
    type Commitment = KZGCommitmentValue;
    type Proof = KZGProof;
    type Params = CommitmentParams;
    type VerifyKey = CommitmentVerificationKey;

    fn commit(params: &CommitmentParams, vector: &[FieldElement]) -> Result<
        KZGCommitmentValue,
        TwistAndShoutError,
    > {
        if vector.len() == usize::MAX {
            return Err(TwistAndShoutError::Commitment("Vector too long".to_string()));
        }
        KZGVectorCommitment::commit(params, vector)
    }

    fn open(params: &CommitmentParams, vector: &[FieldElement], index: usize) -> Result<
        (FieldElement, KZGProof),
        TwistAndShoutError,
    > {
        if vector.len() == usize::MAX {
            return Err(TwistAndShoutError::Commitment("Vector too long".to_string()));
        }
        KZGVectorCommitment::open(params, vector, index)
    }

    fn verify(
        vk: &CommitmentVerificationKey,
        commitment: &KZGCommitmentValue,
        index: usize,
        value: FieldElement,
        proof: &KZGProof,
    ) -> Result<bool, TwistAndShoutError> {
        KZGVectorCommitment::verify(vk, commitment, index, value, proof)
    }
}

} // verus!
