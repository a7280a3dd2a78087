//! Shout: proofs about lookups into a read-only table.

use crate::commitments::{commits_to, kzg_accepts, KZGCommitment, KZGCommitmentValue, KZGProof};
use crate::field::{element_bytes, FieldElement};
use crate::group::{g1_hash_of, G1Element};
use crate::twist::{opening_point, sumcheck_end};
use crate::utils::CommitmentVerificationKey;
use vstd::string::StringSliceAdditionalSpecFns;
use crate::polynomials::poly_utils::interpolate_vector;
use crate::polynomials::{two_to, vals, MultilinearExtension};
use crate::twist::{column_polynomial, is_padded_log};
use crate::utils::field_utils::{lemma_poly_eval_vals, poly_value};
use crate::sumcheck::{accepts_proof, SumCheck, SumCheckOracle, SumCheckProof};
use crate::twist::{fits_setup, lemma_padded_fits};
use crate::utils::{exact_log2, next_power_of_two, ProverParams, Transcript, VerifierParams};
use crate::TwistAndShoutError;
use vstd::prelude::*;

verus! {

/// One lookup: the index asked for and the value found there.
#[derive(Debug, Clone, Copy, PartialEq)]
pub struct LookupOp {
    pub index: usize,
    pub value: FieldElement,
}

/// A read-only table and the log of the lookups made in it.
#[derive(Debug, Clone)]
pub struct LookupTable {
    pub entries: Vec<FieldElement>,
    pub lookups: Vec<LookupOp>,
}

impl LookupTable {
    /// Every logged lookup is in bounds and found the entry at its index.
    pub open spec fn lookups_valid(&self) -> bool {
        forall|i: int|
            0 <= i < self.lookups.len() ==> #[trigger] self.lookups[i].index < self.entries.len()
                && self.lookups[i].value == self.entries[self.lookups[i].index as int]
    }

    pub fn new(entries: Vec<FieldElement>) -> (r: LookupTable)
        ensures
            r.entries@ == entries@,
            r.lookups@.len() == 0,
            r.lookups_valid(),
    {
        LookupTable { entries, lookups: Vec::new() }
    }

    /// The entry at `index`, logged as a lookup; out of bounds is an
    /// `InvalidParameters` error that changes nothing. The entries never change.
    pub fn lookup(&mut self, index: usize) -> (r: Result<FieldElement, TwistAndShoutError>)
        ensures
            final(self).entries@ == old(self).entries@,
            old(self).lookups_valid() ==> final(self).lookups_valid(),
            r is Err <==> index >= old(self).entries.len(),
            r is Err ==> r->Err_0 is InvalidParameters && final(self).lookups@ == old(self).lookups@,
            r is Ok ==> r->Ok_0 == old(self).entries[index as int] && final(self).lookups@
                == old(self).lookups@.push(LookupOp { index, value: r->Ok_0 }),
    {
        if index >= self.entries.len() {
            return Err(
                TwistAndShoutError::InvalidParameters("Lookup index out of bounds".to_string()),
            );
        }
        let value = self.entries[index];
        self.lookups.push(LookupOp { index, value });
        Ok(value)
    }

    /// The number of entries.
    pub fn size(&self) -> (r: usize)
        ensures
            r == self.entries.len(),
    {
        self.entries.len()
    }
}

/// The table's entries, padded with zeros to `size` entries.
pub open spec fn table_column(entries: Seq<FieldElement>, size: nat) -> Seq<int> {
    Seq::new(size, |i: int| if i < entries.len() { entries[i].val() } else { 0 })
}

/// The looked-up indices, padded with zeros to `size` entries.
pub open spec fn lookup_index_column(lookups: Seq<LookupOp>, size: nat) -> Seq<int> {
    Seq::new(size, |i: int| if i < lookups.len() { lookups[i].index as int } else { 0 })
}

/// The transcript state once the table and index commitments are absorbed.
pub open spec fn shout_start(t: G1Element, i: G1Element) -> Seq<u8> {
    Seq::<u8>::empty() + "table_commitment".spec_bytes() + element_bytes(g1_hash_of(t))
        + "index_commitment".spec_bytes() + element_bytes(g1_hash_of(i))
}

/// Whether the Shout verifier accepts `proof`: the sum-check with claim zero
/// accepts from the state after both commitments, and where there are
/// rounds and at least two openings, both openings hold at the opening point.
pub open spec fn shout_accepts(proof: ShoutProof, vk: CommitmentVerificationKey) -> bool {
    let s = shout_start(proof.table_commitment.commitment, proof.index_commitment.commitment);
    let lp = proof.lookup_proof;
    let c = opening_point(sumcheck_end(lp, s));
    &&& accepts_proof(0, lp, s)
    &&& (lp.round_polynomials.len() > 0 && proof.opening_proofs.len() >= 2
        && proof.final_evaluations.len() >= 2) ==> (kzg_accepts(
        vk,
        proof.table_commitment.commitment,
        c,
        proof.final_evaluations[0].val(),
        proof.opening_proofs[0].proof,
    ) && kzg_accepts(
        vk,
        proof.index_commitment.commitment,
        c,
        proof.final_evaluations[1].val(),
        proof.opening_proofs[1].proof,
    ))
}

/// A Shout proof: commitments to the padded table and index columns, the
/// sum-check proof of the lookup claim, and openings of both commitments at
/// one challenge point.
#[derive(Debug, Clone)]
pub struct ShoutProof {
    pub table_commitment: KZGCommitmentValue,
    pub index_commitment: KZGCommitmentValue,
    pub lookup_proof: SumCheckProof,
    pub opening_proofs: Vec<KZGProof>,
    pub final_evaluations: Vec<FieldElement>,
}

/// The lookup-correctness constraint over the padded table and index
/// columns. It is constantly zero: the argument that would tie each
/// looked-up value to `table[index]` is not part of this construction, so the
/// sum-check claim holds for every table.
#[derive(Debug, Clone)]
pub struct LookupConstraint {
    pub table: MultilinearExtension,
    pub index: MultilinearExtension,
}

impl SumCheckOracle for LookupConstraint {
    open spec fn accepts(&self, n: nat) -> bool {
        true
    }

    open spec fn value_at(&self, point: Seq<int>) -> int {
        0
    }

    open spec fn degree(&self) -> nat {
        0
    }

    fn max_degree(&self) -> (r: usize) {
        0
    }

    fn evaluate(&self, point: &[FieldElement]) -> (r: FieldElement) {
        FieldElement::zero()
    }
}

/// `v` padded with zeros to `size` entries.
fn pad(v: &Vec<FieldElement>, size: usize) -> (r: Vec<FieldElement>)
    requires
        v.len() <= size,
    ensures
        r.len() == size,
        forall|i: int| 0 <= i < v.len() ==> #[trigger] r[i] == v[i],
        forall|i: int| v.len() <= i < size ==> #[trigger] r[i].val() == 0,
{
    let mut out: Vec<FieldElement> = Vec::new();
    let mut i: usize = 0;
    while i < size
        invariant
            v.len() <= size,
            i <= size,
            out.len() == i,
            forall|k: int| 0 <= k < i && k < v.len() ==> #[trigger] out[k] == v[k],
            forall|k: int| v.len() <= k < i ==> #[trigger] out[k].val() == 0,
        decreases size - i,
    {
        if i < v.len() {
            out.push(v[i]);
        } else {
            out.push(FieldElement::zero());
        }
        i = i + 1;
    }
    out
}

/// The looked-up indices, as field elements.
fn index_column(lookups: &Vec<LookupOp>) -> (r: Vec<FieldElement>)
    ensures
        r.len() == lookups.len(),
        forall|i: int| 0 <= i < lookups.len() ==> #[trigger] r[i].val() == lookups[i].index,
{
    let mut out: Vec<FieldElement> = Vec::new();
    let mut i: usize = 0;
    while i < lookups.len()
        invariant
            i <= lookups.len(),
            out.len() == i,
            forall|k: int| 0 <= k < i ==> #[trigger] out[k].val() == lookups[k].index,
        decreases lookups.len() - i,
    {
        out.push(FieldElement::from_u64(lookups[i].index as u64));
        i = i + 1;
    }
    out
}

/// The Shout prover and verifier.
#[derive(Debug)]
pub struct Shout {
    prover_params: ProverParams,
}

impl Shout {
    /// The operation cap of the parameters this instance was made with.
    pub closed spec fn max_operations(&self) -> usize {
        self.prover_params.max_operations
    }

    /// The number of powers in the reference string.
    pub closed spec fn setup_len(&self) -> nat {
        self.prover_params.commitment_params.g1_powers.len() as nat
    }

    /// The powers of the reference string.
    pub closed spec fn powers(&self) -> Seq<G1Element> {
        self.prover_params.commitment_params.g1_powers@
    }

    /// The cap leaves room to pad the columns to a power of two.
    #[verifier::type_invariant]
    spec fn cap_fits(self) -> bool {
        2 * self.prover_params.max_operations <= usize::MAX
    }

    pub fn new(prover_params: &ProverParams) -> (r: Shout)
        requires
            2 * prover_params.max_operations <= usize::MAX,
        ensures
            r.max_operations() == prover_params.max_operations,
            r.setup_len() == prover_params.commitment_params.g1_powers.len(),
            r.powers() == prover_params.commitment_params.g1_powers@,
    {
        Shout { prover_params: prover_params.duplicate() }
    }

    /// Proves the lookups: pads the table and the index column to the next
    /// power of two, commits to their interpolants, absorbs both
    /// commitments, runs the sum-check of the lookup constraint with claimed
    /// sum zero, and opens both commitments at the first of the following
    /// challenges. Fails with `InvalidParameters` exactly when there are more
    /// lookups than the cap, and with `Commitment` when a padded column does
    /// not fit the reference string.
    pub fn prove(&self, table: &LookupTable) -> (r: Result<ShoutProof, TwistAndShoutError>)
        requires
            4 * table.entries.len() < usize::MAX,
        ensures
            (r is Err && r->Err_0 is InvalidParameters) <==> table.lookups.len() > self.max_operations(),
            r is Err ==> (r->Err_0 is InvalidParameters || r->Err_0 is Commitment),
            r is Ok <==> (table.lookups.len() <= self.max_operations() && fits_setup(
                table.entries.len() as nat,
                self.setup_len(),
            ) && fits_setup(table.lookups.len() as nat, self.setup_len())),
            r is Ok ==> ({
                let proof = r->Ok_0;
                let k = proof.lookup_proof.round_polynomials.len() as nat;
                let s = shout_start(proof.table_commitment.commitment, proof.index_commitment.commitment);
                let c = opening_point(sumcheck_end(proof.lookup_proof, s));
                &&& is_padded_log(k, table.lookups.len() as nat)
                &&& accepts_proof(0, proof.lookup_proof, s)
                &&& commits_to(
                    proof.index_commitment.commitment,
                    column_polynomial(lookup_index_column(table.lookups@, two_to(k))),
                    self.powers(),
                )
                &&& exists|t: nat|
                    is_padded_log(t, table.entries.len() as nat) && commits_to(
                        proof.table_commitment.commitment,
                        column_polynomial(table_column(table.entries@, two_to(t))),
                        self.powers(),
                    ) && (k > 0 ==> proof.final_evaluations[0].val() == poly_value(
                        column_polynomial(table_column(table.entries@, two_to(t))),
                        c,
                    ))
                &&& k > 0 ==> proof.final_evaluations[1].val() == poly_value(
                    column_polynomial(lookup_index_column(table.lookups@, two_to(k))),
                    c,
                )
                &&& proof.opening_proofs.len() == proof.final_evaluations.len()
                &&& proof.final_evaluations.len() == if proof.lookup_proof.round_polynomials.len() == 0 {
                    0int
                } else {
                    2int
                }
            }),
    {
        proof {
            use_type_invariant(self);
        }
        if table.lookups.len() > self.prover_params.max_operations {
            return Err(
                TwistAndShoutError::InvalidParameters("Too many lookup operations".to_string()),
            );
        }
        let table_size = next_power_of_two(table.entries.len());
        let padded_table = pad(&table.entries, table_size);
        let indices = index_column(&table.lookups);
        let lookups_size = next_power_of_two(indices.len());
        let padded_indices = pad(&indices, lookups_size);
        proof {
            lemma_padded_fits(table.entries.len() as nat, table_size as nat, self.setup_len());
            lemma_padded_fits(table.lookups.len() as nat, lookups_size as nat, self.setup_len());
        }
        proof {
            assert(vals(padded_table@) =~= table_column(table.entries@, table_size as nat));
            assert(vals(padded_indices@) =~= lookup_index_column(table.lookups@, lookups_size as nat));
        }
        let table_poly = interpolate_vector(padded_table.as_slice());
        let index_poly = interpolate_vector(padded_indices.as_slice());
        let table_commitment = match KZGCommitment::commit(
            &self.prover_params.commitment_params,
            table_poly.as_slice(),
        ) {
            Ok(c) => c,
            Err(e) => {
                return Err(e);
            },
        };
        let index_commitment = match KZGCommitment::commit(
            &self.prover_params.commitment_params,
            index_poly.as_slice(),
        ) {
            Ok(c) => c,
            Err(e) => {
                return Err(e);
            },
        };
        let log_lookups = exact_log2(lookups_size);
        let log_table = exact_log2(table_size);
        let sumcheck = SumCheck::new(log_lookups, FieldElement::zero());
        let mut transcript = Transcript::new(&self.prover_params.fiat_shamir_seed);
        transcript.append_field_element("table_commitment".as_bytes(), &table_commitment.hash());
        transcript.append_field_element("index_commitment".as_bytes(), &index_commitment.hash());
        let constraint = LookupConstraint {
            table: MultilinearExtension::from_evaluations_vec(log_table, padded_table),
            index: MultilinearExtension::from_evaluations_vec(log_lookups, padded_indices),
        };
        let lookup_proof = match sumcheck.prove(&constraint, &mut transcript) {
            Ok(p) => p,
            Err(e) => {
                return Err(e);
            },
        };
        let challenges = transcript.challenge_field_elements("opening_challenges".as_bytes(), log_lookups);
        let mut opening_proofs: Vec<KZGProof> = Vec::new();
        let mut final_evaluations: Vec<FieldElement> = Vec::new();
        if challenges.len() > 0 {
            let (table_eval, table_opening) = match KZGCommitment::open(
                &self.prover_params.commitment_params,
                table_poly.as_slice(),
                challenges[0],
            ) {
                Ok(v) => v,
                Err(e) => {
                    return Err(e);
                },
            };
            let (index_eval, index_opening) = match KZGCommitment::open(
                &self.prover_params.commitment_params,
                index_poly.as_slice(),
                challenges[0],
            ) {
                Ok(v) => v,
                Err(e) => {
                    return Err(e);
                },
            };
            opening_proofs.push(table_opening);
            opening_proofs.push(index_opening);
            final_evaluations.push(table_eval);
            final_evaluations.push(index_eval);
            proof {
                lemma_poly_eval_vals(table_poly@, challenges[0].val());
                lemma_poly_eval_vals(index_poly@, challenges[0].val());
                let c = challenges[0].val();
                let t = log_table as nat;
                if t > 0 {
                    assert(two_to(t) == 2 * two_to((t - 1) as nat));
                }
                assert(is_padded_log(t, table.entries.len() as nat));
                assert(final_evaluations[0].val() == poly_value(
                    column_polynomial(table_column(table.entries@, two_to(t))),
                    c,
                ));
            }
        }
        proof {
            if log_lookups > 0 {
                assert(two_to(log_lookups as nat) == 2 * two_to((log_lookups - 1) as nat));
            }
            let t = log_table as nat;
            if t > 0 {
                assert(two_to(t) == 2 * two_to((t - 1) as nat));
            }
            assert(is_padded_log(t, table.entries.len() as nat));
        }
        Ok(ShoutProof {
            table_commitment,
            index_commitment,
            lookup_proof,
            opening_proofs,
            final_evaluations,
        })
    }

    /// Replays the transcript, checks the sum-check proof with claimed sum
    /// zero, then, where there are challenges and at least two openings,
    /// checks the table and index openings at the first one. `Ok(false)`
    /// where a check fails.
    pub fn verify(&self, proof: &ShoutProof, verifier_params: &VerifierParams) -> (r: Result<
        bool,
        TwistAndShoutError,
    >)
        ensures
            r is Ok,
            r == Ok::<bool, TwistAndShoutError>(shout_accepts(*proof, verifier_params.commitment_vk)),
    {
        let mut transcript = Transcript::new(&verifier_params.fiat_shamir_seed);
        transcript.append_field_element("table_commitment".as_bytes(), &proof.table_commitment.hash());
        transcript.append_field_element("index_commitment".as_bytes(), &proof.index_commitment.hash());
        let num_vars = proof.lookup_proof.round_polynomials.len();
        let sumcheck = SumCheck::new(num_vars, FieldElement::zero());
        let (sumcheck_valid, _challenges) = match sumcheck.verify(&proof.lookup_proof, &mut transcript) {
            Ok(v) => v,
            Err(e) => {
                return Ok(false);
            },
        };
        if !sumcheck_valid {
            return Ok(false);
        }
        let opening_challenges = transcript.challenge_field_elements("opening_challenges".as_bytes(), num_vars);
        if opening_challenges.len() > 0 && proof.opening_proofs.len() >= 2 && proof.final_evaluations.len() >= 2 {
            let table_valid = match KZGCommitment::verify(
                &verifier_params.commitment_vk,
                &proof.table_commitment,
                opening_challenges[0],
                proof.final_evaluations[0],
                &proof.opening_proofs[0],
            ) {
                Ok(v) => v,
                Err(e) => false,
            };
            if !table_valid {
                return Ok(false);
            }
            let index_valid = match KZGCommitment::verify(
                &verifier_params.commitment_vk,
                &proof.index_commitment,
                opening_challenges[0],
                proof.final_evaluations[1],
                &proof.opening_proofs[1],
            ) {
                Ok(v) => v,
                Err(e) => false,
            };
            if !index_valid {
                return Ok(false);
            }
        }
        Ok(true)
    }
}

} // verus!
