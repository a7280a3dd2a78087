//! The sum-check protocol, made non-interactive with a Fiat-Shamir transcript.

use crate::field::{fadd, fmul, lemma_reduced, FieldElement};
use crate::polynomials::poly_utils::{index_nodes, interpolate_vector, lagrange_sum};
use crate::polynomials::{
    bool_point, extend_with_bits, lemma_two_to_mono, mle_eval, two_to, two_to_usize, vals,
    MultilinearExtension,
};
use crate::utils::field_utils::{horner_eval, lemma_poly_eval_vals, poly_eval, poly_value};
use crate::utils::{challenge_value, decimal, encode_vals, label_with_index, Transcript};
use crate::TwistAndShoutError;
use vstd::prelude::*;
use vstd::string::StringSliceAdditionalSpecFns;

verus! {

/// A polynomial that the sum-check prover can evaluate at any point.
pub trait SumCheckOracle {
    /// Whether points of `n` coordinates are in the oracle's domain.
    spec fn accepts(&self, n: nat) -> bool;

    /// The polynomial's value at `point`.
    spec fn value_at(&self, point: Seq<int>) -> int;

    /// A bound on the polynomial's degree in each variable.
    spec fn degree(&self) -> nat;

    fn max_degree(&self) -> (r: usize)
        ensures
            r == self.degree(),
    ;

    fn evaluate(&self, point: &[FieldElement]) -> (r: FieldElement)
        requires
            self.accepts(point.len() as nat),
        ensures
            r.val() == self.value_at(vals(point@)),
    ;
}

/// The product of several multilinear extensions in the same variables.
#[derive(Debug, Clone)]
pub struct MleProduct {
    pub factors: Vec<MultilinearExtension>,
}

/// `prod_{i < k} mle_eval(factors[i], point)`.
pub open spec fn product_value(factors: Seq<MultilinearExtension>, point: Seq<int>, k: nat) -> int
    decreases k,
{
    if k == 0 {
        1
    } else {
        fmul(product_value(factors, point, (k - 1) as nat), mle_eval(factors[k - 1].table(), point))
    }
}

impl SumCheckOracle for MleProduct {
    open spec fn accepts(&self, n: nat) -> bool {
        forall|i: int|
            0 <= i < self.factors.len() ==> #[trigger] self.factors[i].wf()
                && self.factors[i].num_vars == n
    }

    open spec fn value_at(&self, point: Seq<int>) -> int {
        product_value(self.factors@, point, self.factors.len() as nat)
    }

    /// Each factor is multilinear, so the product has degree at most the
    /// number of factors in each variable.
    open spec fn degree(&self) -> nat {
        self.factors.len() as nat
    }

    fn max_degree(&self) -> (r: usize) {
        self.factors.len()
    }

    fn evaluate(&self, point: &[FieldElement]) -> (r: FieldElement) {
        let mut acc = FieldElement::one();
        let mut i: usize = 0;
        while i < self.factors.len()
            invariant
                i <= self.factors.len(),
                self.accepts(point.len() as nat),
                acc.val() == product_value(self.factors@, vals(point@), i as nat),
            decreases self.factors.len() - i,
        {
            assert(self.factors[i as int].wf());
            acc = acc.mul(&self.factors[i].evaluate(point));
            i = i + 1;
        }
        acc
    }
}

/// The constant-zero polynomial.
#[derive(Debug, Clone, Copy)]
pub struct ZeroPolynomial;

impl SumCheckOracle for ZeroPolynomial {
    open spec fn accepts(&self, n: nat) -> bool {
        true
    }

    open spec fn value_at(&self, point: Seq<int>) -> int {
        0
    }

    open spec fn degree(&self) -> nat {
        0
    }

    fn max_degree(&self) -> (r: usize) {
        0
    }

    fn evaluate(&self, point: &[FieldElement]) -> (r: FieldElement) {
        FieldElement::zero()
    }
}

/// A sum-check instance: the claim that a polynomial in `num_vars`
/// variables sums to `claimed_sum` over the hypercube.
#[derive(Debug, Clone, Copy)]
pub struct SumCheck {
    pub num_vars: usize,
    pub claimed_sum: FieldElement,
}

/// A sum-check proof: one univariate polynomial per round and the value of
/// the polynomial at the point that the challenges make.
#[derive(Debug, Clone)]
pub struct SumCheckProof {
    pub round_polynomials: Vec<Vec<FieldElement>>,
    pub final_evaluation: FieldElement,
}

/// The state of a sum-check verifier.
#[derive(Debug, Clone)]
pub struct SumCheckVerifier {
    pub num_vars: usize,
    pub challenges: Vec<FieldElement>,
    pub expected_sum: FieldElement,
}

/// The label under which round `i`'s polynomial is absorbed.
pub open spec fn round_label(i: nat) -> Seq<u8> {
    "sumcheck_round_".spec_bytes() + decimal(i)
}

/// The label under which round `i`'s challenge is drawn.
pub open spec fn challenge_label(i: nat) -> Seq<u8> {
    "sumcheck_challenge_".spec_bytes() + decimal(i)
}

/// The transcript state once round `i` has absorbed `g` and drawn its challenge.
pub open spec fn after_round(state: Seq<u8>, i: nat, g: Seq<int>) -> Seq<u8> {
    state + round_label(i) + encode_vals(g) + challenge_label(i)
}

/// The residues of the coefficients of each round polynomial.
pub open spec fn round_vals(rounds: Seq<Vec<FieldElement>>) -> Seq<Seq<int>> {
    rounds.map_values(|g: Vec<FieldElement>| vals(g@))
}

/// The transcript state after the first `k` rounds, starting from `s0`.
pub open spec fn round_states(rounds: Seq<Seq<int>>, s0: Seq<u8>, k: nat) -> Seq<u8>
    decreases k,
{
    if k == 0 {
        s0
    } else {
        after_round(round_states(rounds, s0, (k - 1) as nat), (k - 1) as nat, rounds[k - 1])
    }
}

/// The challenges that the first `k` rounds draw.
pub open spec fn challenges_of(rounds: Seq<Seq<int>>, s0: Seq<u8>, k: nat) -> Seq<int> {
    Seq::new(k, |j: int| challenge_value(round_states(rounds, s0, (j + 1) as nat)))
}

/// The verifier's replay of the first `k` rounds: whether every round so far
/// has `g(0) + g(1)` equal to the running sum, and the running sum after them.
pub open spec fn replay(claimed: int, rounds: Seq<Seq<int>>, s0: Seq<u8>, k: nat) -> (bool, int)
    decreases k,
{
    if k == 0 {
        (true, claimed)
    } else {
        let prev = replay(claimed, rounds, s0, (k - 1) as nat);
        let g = rounds[k - 1];
        (
            prev.0 && fadd(poly_value(g, 0), poly_value(g, 1)) == prev.1,
            poly_value(g, challenge_value(round_states(rounds, s0, k))),
        )
    }
}

/// Whether a verifier whose transcript is in state `s0` accepts `proof` for
/// the claim `claimed`: every round checks out and the final running sum is
/// the proof's final evaluation.
pub open spec fn accepts_proof(claimed: int, proof: SumCheckProof, s0: Seq<u8>) -> bool {
    let rv = round_vals(proof.round_polynomials@);
    &&& replay(claimed, rv, s0, rv.len() as nat).0
    &&& replay(claimed, rv, s0, rv.len() as nat).1 == proof.final_evaluation.val()
}

/// The first `k` round polynomials that the prover sends for `f` in `n`
/// variables, from transcript state `s0`.
pub open spec fn honest_rounds<O: SumCheckOracle>(f: O, s0: Seq<u8>, n: nat, k: nat) -> Seq<Seq<int>>
    decreases k,
{
    if k == 0 {
        Seq::empty()
    } else {
        let prev = honest_rounds(f, s0, n, (k - 1) as nat);
        prev.push(round_polynomial(f, challenges_of(prev, s0, (k - 1) as nat), (n - k) as nat))
    }
}

/// Whether the prover's own checks all pass: every round polynomial
/// `g` has `g(0) + g(1)` equal to the running sum, and the last running sum is
/// the polynomial's value at the challenges.
pub open spec fn honest_ok<O: SumCheckOracle>(f: O, claimed: int, s0: Seq<u8>, n: nat) -> bool {
    let h = honest_rounds(f, s0, n, n);
    &&& replay(claimed, h, s0, n).0
    &&& replay(claimed, h, s0, n).1 == f.value_at(challenges_of(h, s0, n))
}

/// `sum_{s < k} f(prefix, bits of s)` over suffixes of `m` bits.
pub open spec fn suffix_sum<O: SumCheckOracle>(f: O, prefix: Seq<int>, m: nat, k: nat) -> int
    decreases k,
{
    if k == 0 {
        0
    } else {
        fadd(suffix_sum(f, prefix, m, (k - 1) as nat), f.value_at(prefix + bool_point((k - 1) as nat, m)))
    }
}

/// The sums of `f(fixed, x, suffix)` over all suffixes of `m` bits, at
/// `x = 0, 1, ..., d` for the degree bound `d` of `f`.
pub open spec fn round_sums<O: SumCheckOracle>(f: O, fixed: Seq<int>, m: nat) -> Seq<int> {
    Seq::new(f.degree() + 1, |x: int| suffix_sum(f, fixed.push(x), m, two_to(m)))
}

/// The round polynomial: the polynomial of degree at most `d` through the
/// `d + 1` round sums.
pub open spec fn round_polynomial<O: SumCheckOracle>(f: O, fixed: Seq<int>, m: nat) -> Seq<int> {
    lagrange_sum(index_nodes(f.degree() + 1), round_sums(f, fixed, m), f.degree() + 1)
}

impl SumCheck {
    pub fn new(num_vars: usize, claimed_sum: FieldElement) -> (r: SumCheck)
        ensures
            r.num_vars == num_vars,
            r.claimed_sum == claimed_sum,
    {
        SumCheck { num_vars, claimed_sum }
    }

    /// Proves that `polynomial` sums to `claimed_sum` over the hypercube.
    /// Round `i` sends the polynomial of degree at most `d` (the oracle's
    /// degree bound) through the sums of the polynomial with the first `i`
    /// variables fixed to the earlier challenges and variable `i` at
    /// `0, 1, ..., d`; the prover checks every round as the verifier will,
    /// and that the last running sum is the polynomial's value at the
    /// challenges. It succeeds exactly when all these checks pass, and
    /// reports a failed one as a `SumCheck` error.
    pub fn prove<O: SumCheckOracle>(&self, polynomial: &O, transcript: &mut Transcript) -> (r:
        Result<SumCheckProof, TwistAndShoutError>)
        requires
            two_to(self.num_vars as nat) <= usize::MAX,
            polynomial.accepts(self.num_vars as nat),
            polynomial.degree() + 2 < usize::MAX,
        ensures
            r is Ok <==> honest_ok(*polynomial, self.claimed_sum.val(), old(transcript).state(), self.num_vars as nat),
            r is Err ==> r->Err_0 is SumCheck,
            self.claimed_sum.val() == 0 && (forall|p: Seq<int>| #[trigger] polynomial.value_at(p) == 0)
                ==> r is Ok,
            r is Ok ==> ({
                let proof = r->Ok_0;
                let n = self.num_vars as nat;
                let h = honest_rounds(*polynomial, old(transcript).state(), n, n);
                &&& proof.round_polynomials.len() == self.num_vars
                &&& round_vals(proof.round_polynomials@) == h
                &&& accepts_proof(self.claimed_sum.val(), proof, old(transcript).state())
                &&& final(transcript).state() == round_states(h, old(transcript).state(), n)
                &&& proof.final_evaluation.val() == polynomial.value_at(challenges_of(h, old(transcript).state(), n))
            }),
    {
        let ghost s0 = transcript.state();
        let ghost claimed = self.claimed_sum.val();
        let ghost n = self.num_vars as nat;
        let ghost zero_case = claimed == 0 && (forall|p: Seq<int>| #[trigger] polynomial.value_at(p) == 0);
        let mut round_polynomials: Vec<Vec<FieldElement>> = Vec::new();
        let mut current_sum = self.claimed_sum;
        let mut fixed_variables: Vec<FieldElement> = Vec::new();
        let mut round: usize = 0;
        proof {
            assert(round_vals(round_polynomials@) =~= honest_rounds(*polynomial, s0, n, 0));
            assert(vals(fixed_variables@) =~= challenges_of(round_vals(round_polynomials@), s0, 0));
        }
        while round < self.num_vars
            invariant
                two_to(self.num_vars as nat) <= usize::MAX,
                polynomial.accepts(self.num_vars as nat),
                polynomial.degree() + 2 < usize::MAX,
                n == self.num_vars,
                round <= self.num_vars,
                round_polynomials.len() == round,
                fixed_variables.len() == round,
                claimed == self.claimed_sum.val(),
                s0 == old(transcript).state(),
                zero_case == (claimed == 0 && (forall|p: Seq<int>| #[trigger] polynomial.value_at(p) == 0)),
                zero_case ==> current_sum.val() == 0,
                round_vals(round_polynomials@) == honest_rounds(*polynomial, s0, n, round as nat),
                replay(claimed, round_vals(round_polynomials@), s0, round as nat).0,
                replay(claimed, round_vals(round_polynomials@), s0, round as nat).1 == current_sum.val(),
                round_states(round_vals(round_polynomials@), s0, round as nat) == transcript.state(),
                vals(fixed_variables@) == challenges_of(round_vals(round_polynomials@), s0, round as nat),
            decreases self.num_vars - round,
        {
            let ghost rv = round_vals(round_polynomials@);
            let round_poly = self.compute_round_polynomial(polynomial, &fixed_variables);
            let ghost g = vals(round_poly@);
            let ghost hn = honest_rounds(*polynomial, s0, n, (round + 1) as nat);
            proof {
                lemma_honest_len(*polynomial, s0, n, round as nat);
                assert(hn == rv.push(g));
                lemma_poly_eval_vals(round_poly@, 0);
                lemma_poly_eval_vals(round_poly@, 1);
                if zero_case {
                    lemma_zero_round(*polynomial, vals(fixed_variables@), (self.num_vars - round - 1) as nat);
                    assert forall|k: int| 0 <= k < round_poly@.len() implies #[trigger] round_poly@[k].val() == 0 by {
                        assert(vals(round_poly@)[k] == round_poly@[k].val());
                    }
                    lemma_poly_eval_zero(round_poly@, 0);
                    lemma_poly_eval_zero(round_poly@, 1);
                    lemma_reduced(0);
                }
                lemma_states_prefix(claimed, rv, hn, s0, round as nat);
            }
            let g_0 = horner_eval(round_poly.as_slice(), FieldElement::zero());
            let g_1 = horner_eval(round_poly.as_slice(), FieldElement::one());
            if !(g_0.add(&g_1) == current_sum) {
                proof {
                    assert(!replay(claimed, hn, s0, (round + 1) as nat).0);
                    lemma_honest_prefix(*polynomial, s0, n, (round + 1) as nat, n);
                    lemma_honest_len(*polynomial, s0, n, n);
                    lemma_states_prefix(claimed, hn, honest_rounds(*polynomial, s0, n, n), s0, (round + 1) as nat);
                    lemma_replay_fails_later(claimed, honest_rounds(*polynomial, s0, n, n), s0, (round + 1) as nat, n);
                }
                return Err(
                    TwistAndShoutError::SumCheck("Round consistency check failed".to_string()),
                );
            }
            let ghost prev_polys = round_polynomials@;
            round_polynomials.push(round_poly.clone());
            let round_label = label_with_index("sumcheck_round_", round);
            transcript.append_field_elements(round_label.as_slice(), round_poly.as_slice());
            let challenge_label = label_with_index("sumcheck_challenge_", round);
            let challenge = transcript.challenge_field_element(challenge_label.as_slice());
            let ghost prev_fixed = fixed_variables@;
            fixed_variables.push(challenge);
            current_sum = horner_eval(round_poly.as_slice(), challenge);
            proof {
                lemma_poly_eval_vals(round_poly@, challenge.val());
                if zero_case {
                    lemma_poly_eval_zero(round_poly@, challenge.val());
                }
                assert(round_polynomials[round as int]@ == round_poly@);
                assert(round_vals(round_polynomials@) =~= hn);
                assert(vals(fixed_variables@) =~= challenges_of(hn, s0, (round + 1) as nat)) by {
                    assert forall|j: int| 0 <= j < round implies #[trigger] challenges_of(hn, s0, (round + 1) as nat)[j]
                        == challenges_of(rv, s0, round as nat)[j] by {
                        lemma_states_prefix(claimed, rv, hn, s0, (j + 1) as nat);
                    }
                    assert(vals(fixed_variables@) =~= vals(prev_fixed).push(challenge.val()));
                }
            }
            round = round + 1;
        }
        let final_evaluation = polynomial.evaluate(fixed_variables.as_slice());
        if !(current_sum == final_evaluation) {
            return Err(
                TwistAndShoutError::SumCheck(
                    "Final running sum differs from the polynomial's value".to_string(),
                ),
            );
        }
        let proof = SumCheckProof { round_polynomials, final_evaluation };
        proof {
            assert(round_vals(proof.round_polynomials@).len() == n);
        }
        Ok(proof)
    }

    /// Replays the rounds of `proof`: returns whether every round's
    /// `g(0) + g(1)` equals the running sum and the last running sum is the
    /// final evaluation, together with the challenges drawn (as far as the
    /// replay went). A proof with the wrong number of rounds is an error.
    pub fn verify(&self, proof: &SumCheckProof, transcript: &mut Transcript) -> (r: Result<
        (bool, Vec<FieldElement>),
        TwistAndShoutError,
    >)
        ensures
            r is Err <==> proof.round_polynomials.len() != self.num_vars,
            r is Err ==> r->Err_0 is SumCheck,
            r is Ok ==> ({
                let n = self.num_vars as nat;
                let rv = round_vals(proof.round_polynomials@);
                &&& r->Ok_0.0 == accepts_proof(self.claimed_sum.val(), *proof, old(transcript).state())
                &&& replay(self.claimed_sum.val(), rv, old(transcript).state(), n).0 ==> final(transcript).state()
                    == round_states(rv, old(transcript).state(), n)
                &&& replay(self.claimed_sum.val(), rv, old(transcript).state(), n).0 ==> vals(r->Ok_0.1@)
                    == challenges_of(rv, old(transcript).state(), n)
            }),
    {
        if proof.round_polynomials.len() != self.num_vars {
            return Err(TwistAndShoutError::SumCheck("Proof has wrong number of rounds".to_string()));
        }
        let ghost s0 = transcript.state();
        let ghost claimed = self.claimed_sum.val();
        let ghost rv = round_vals(proof.round_polynomials@);
        let mut current_sum = self.claimed_sum;
        let mut challenges: Vec<FieldElement> = Vec::new();
        let mut round: usize = 0;
        proof {
            assert(vals(challenges@) =~= challenges_of(rv, s0, 0));
        }
        while round < proof.round_polynomials.len()
            invariant
                rv == round_vals(proof.round_polynomials@),
                rv.len() == self.num_vars,
                s0 == old(transcript).state(),
                claimed == self.claimed_sum.val(),
                round <= rv.len(),
                challenges.len() == round,
                replay(claimed, rv, s0, round as nat).0,
                replay(claimed, rv, s0, round as nat).1 == current_sum.val(),
                round_states(rv, s0, round as nat) == transcript.state(),
                vals(challenges@) == challenges_of(rv, s0, round as nat),
            decreases rv.len() - round,
        {
            let round_poly = &proof.round_polynomials[round];
            proof {
                assert(rv[round as int] == vals(round_poly@));
                lemma_poly_eval_vals(round_poly@, 0);
                lemma_poly_eval_vals(round_poly@, 1);
            }
            let g_0 = horner_eval(round_poly.as_slice(), FieldElement::zero());
            let g_1 = horner_eval(round_poly.as_slice(), FieldElement::one());
            if !(g_0.add(&g_1) == current_sum) {
                proof {
                    assert(!replay(claimed, rv, s0, (round + 1) as nat).0);
                    lemma_replay_fails_later(claimed, rv, s0, (round + 1) as nat, rv.len() as nat);
                }
                return Ok((false, challenges));
            }
            let round_label = label_with_index("sumcheck_round_", round);
            transcript.append_field_elements(round_label.as_slice(), round_poly.as_slice());
            let challenge_label = label_with_index("sumcheck_challenge_", round);
            let challenge = transcript.challenge_field_element(challenge_label.as_slice());
            let ghost prev = challenges@;
            challenges.push(challenge);
            current_sum = horner_eval(round_poly.as_slice(), challenge);
            proof {
                lemma_poly_eval_vals(round_poly@, challenge.val());
                assert(vals(challenges@) =~= challenges_of(rv, s0, (round + 1) as nat)) by {
                    assert(vals(challenges@) =~= vals(prev).push(challenge.val()));
                }
            }
            round = round + 1;
        }
        Ok((current_sum == proof.final_evaluation, challenges))
    }

    /// The polynomial of degree at most `d` through the sums, over all
    /// Boolean suffixes, of the polynomial with the first variables at
    /// `fixed_variables` and the next one at `0, 1, ..., d`.
    fn compute_round_polynomial<O: SumCheckOracle>(
        &self,
        polynomial: &O,
        fixed_variables: &Vec<FieldElement>,
    ) -> (r: Vec<FieldElement>)
        requires
            fixed_variables.len() < self.num_vars,
            two_to(self.num_vars as nat) <= usize::MAX,
            polynomial.accepts(self.num_vars as nat),
            polynomial.degree() + 2 < usize::MAX,
        ensures
            vals(r@) == round_polynomial(
                *polynomial,
                vals(fixed_variables@),
                (self.num_vars - fixed_variables.len() - 1) as nat,
            ),
    {
        let remaining_vars = self.num_vars - fixed_variables.len() - 1;
        proof {
            lemma_two_to_mono(remaining_vars as nat, self.num_vars as nat);
        }
        let num_points = two_to_usize(remaining_vars);
        let samples = polynomial.max_degree() + 1;
        let mut evaluations: Vec<FieldElement> = Vec::new();
        let mut x_val: usize = 0;
        while x_val < samples
            invariant
                samples == polynomial.degree() + 1,
                samples + 1 < usize::MAX,
                x_val <= samples,
                evaluations.len() == x_val,
                num_points == two_to(remaining_vars as nat),
                remaining_vars + fixed_variables.len() + 1 == self.num_vars,
                polynomial.accepts(self.num_vars as nat),
                forall|k: int|
                    0 <= k < x_val ==> #[trigger] evaluations[k].val() == round_sums(
                        *polynomial,
                        vals(fixed_variables@),
                        remaining_vars as nat,
                    )[k],
            decreases samples - x_val,
        {
            let x = FieldElement::from_u64(x_val as u64);
            let mut prefix: Vec<FieldElement> = fixed_variables.clone();
            prefix.push(x);
            let ghost pre = vals(fixed_variables@).push(x_val as int);
            proof {
                assert(vals(prefix@) =~= pre);
            }
            let mut sum = FieldElement::zero();
            let mut suffix_index: usize = 0;
            while suffix_index < num_points
                invariant
                    suffix_index <= num_points,
                    prefix.len() + remaining_vars == self.num_vars,
                    polynomial.accepts(self.num_vars as nat),
                    vals(prefix@) == pre,
                    sum.val() == suffix_sum(*polynomial, pre, remaining_vars as nat, suffix_index as nat),
                decreases num_points - suffix_index,
            {
                let point = extend_with_bits(prefix.as_slice(), suffix_index, remaining_vars);
                proof {
                    assert(point@.len() == vals(point@).len());
                }
                sum = sum.add(&polynomial.evaluate(point.as_slice()));
                suffix_index = suffix_index + 1;
            }
            evaluations.push(sum);
            x_val = x_val + 1;
        }
        proof {
            assert(vals(evaluations@) =~= round_sums(*polynomial, vals(fixed_variables@), remaining_vars as nat)) by {
                assert forall|k: int| 0 <= k < samples implies #[trigger] vals(evaluations@)[k] == round_sums(
                    *polynomial,
                    vals(fixed_variables@),
                    remaining_vars as nat,
                )[k] by {
                    assert(evaluations[k].val() == round_sums(*polynomial, vals(fixed_variables@), remaining_vars as nat)[k]);
                }
            }
        }
        interpolate_vector(evaluations.as_slice())
    }
}

/// A polynomial that is zero everywhere has zero sums.
proof fn lemma_suffix_sum_zero<O: SumCheckOracle>(f: O, prefix: Seq<int>, m: nat, k: nat)
    requires
        forall|p: Seq<int>| #[trigger] f.value_at(p) == 0,
    ensures
        suffix_sum(f, prefix, m, k) == 0,
    decreases k,
{
    lemma_reduced(0);
    if k > 0 {
        lemma_suffix_sum_zero(f, prefix, m, (k - 1) as nat);
        assert(f.value_at(prefix + bool_point((k - 1) as nat, m)) == 0);
    }
}

/// Interpolating zeros gives the zero polynomial.
proof fn lemma_lagrange_zero(xs: Seq<int>, ys: Seq<int>, m: nat)
    requires
        m <= ys.len(),
        forall|i: int| 0 <= i < ys.len() ==> #[trigger] ys[i] == 0,
    ensures
        lagrange_sum(xs, ys, m).len() == xs.len(),
        forall|k: int| 0 <= k < xs.len() ==> #[trigger] lagrange_sum(xs, ys, m)[k] == 0,
    decreases m,
{
    lemma_reduced(0);
    if m > 0 {
        lemma_lagrange_zero(xs, ys, (m - 1) as nat);
        let li = crate::polynomials::poly_utils::basis_coeffs(xs, m - 1, xs.len());
        assert forall|k: int| 0 <= k < xs.len() implies #[trigger] lagrange_sum(xs, ys, m)[k] == 0 by {
            assert(ys[m - 1] == 0);
            assert(0 * li[k] == 0);
        }
    }
}

/// A polynomial whose coefficients are all zero is zero everywhere.
proof fn lemma_poly_eval_zero(c: Seq<FieldElement>, x: int)
    requires
        forall|i: int| 0 <= i < c.len() ==> #[trigger] c[i].val() == 0,
    ensures
        poly_eval(c, x) == 0,
    decreases c.len(),
{
    lemma_reduced(0);
    if c.len() > 0 {
        assert forall|i: int| 0 <= i < c.drop_first().len() implies #[trigger] c.drop_first()[i].val() == 0 by {
            assert(c.drop_first()[i] == c[i + 1]);
        }
        lemma_poly_eval_zero(c.drop_first(), x);
        assert(x * 0 == 0);
    }
}

/// For a polynomial that is zero everywhere, every round polynomial is zero.
proof fn lemma_zero_round<O: SumCheckOracle>(f: O, fixed: Seq<int>, m: nat)
    requires
        forall|p: Seq<int>| #[trigger] f.value_at(p) == 0,
    ensures
        round_polynomial(f, fixed, m).len() == f.degree() + 1,
        forall|k: int| 0 <= k < f.degree() + 1 ==> #[trigger] round_polynomial(f, fixed, m)[k] == 0,
{
    let sums = round_sums(f, fixed, m);
    assert forall|i: int| 0 <= i < sums.len() implies #[trigger] sums[i] == 0 by {
        lemma_suffix_sum_zero(f, fixed.push(i), m, two_to(m));
    }
    lemma_lagrange_zero(index_nodes(f.degree() + 1), sums, f.degree() + 1);
}

/// Rounds that agree on a prefix give the same states and replay over it.
proof fn lemma_states_prefix(claimed: int, r1: Seq<Seq<int>>, r2: Seq<Seq<int>>, s0: Seq<u8>, k: nat)
    requires
        k <= r1.len(),
        k <= r2.len(),
        forall|i: int| 0 <= i < k ==> #[trigger] r1[i] == r2[i],
    ensures
        round_states(r1, s0, k) == round_states(r2, s0, k),
        replay(claimed, r1, s0, k) == replay(claimed, r2, s0, k),
    decreases k,
{
    if k > 0 {
        lemma_states_prefix(claimed, r1, r2, s0, (k - 1) as nat);
        assert(r1[k - 1] == r2[k - 1]);
    }
}

proof fn lemma_honest_len<O: SumCheckOracle>(f: O, s0: Seq<u8>, n: nat, k: nat)
    ensures
        honest_rounds(f, s0, n, k).len() == k,
    decreases k,
{
    if k > 0 {
        lemma_honest_len(f, s0, n, (k - 1) as nat);
    }
}

/// Later honest rounds extend earlier ones.
proof fn lemma_honest_prefix<O: SumCheckOracle>(f: O, s0: Seq<u8>, n: nat, k: nat, m: nat)
    requires
        k <= m,
    ensures
        forall|i: int| 0 <= i < k ==> #[trigger] honest_rounds(f, s0, n, m)[i] == honest_rounds(f, s0, n, k)[i],
    decreases m,
{
    lemma_honest_len(f, s0, n, k);
    lemma_honest_len(f, s0, n, m);
    if k < m {
        lemma_honest_prefix(f, s0, n, k, (m - 1) as nat);
        lemma_honest_len(f, s0, n, (m - 1) as nat);
        assert forall|i: int| 0 <= i < k implies #[trigger] honest_rounds(f, s0, n, m)[i] == honest_rounds(f, s0, n, k)[i] by {
            assert(honest_rounds(f, s0, n, m)[i] == honest_rounds(f, s0, n, (m - 1) as nat)[i]);
        }
    }
}

/// Once a round fails, the replay rejects.
proof fn lemma_replay_fails_later(claimed: int, rounds: Seq<Seq<int>>, s0: Seq<u8>, k: nat, n: nat)
    requires
        1 <= k <= n,
        !replay(claimed, rounds, s0, k).0,
    ensures
        !replay(claimed, rounds, s0, n).0,
    decreases n - k,
{
    if k < n {
        lemma_replay_fails_later(claimed, rounds, s0, k, (n - 1) as nat);
    }
}

} // verus!
