//! Twist: proofs about read-write memory traces.

use crate::commitments::{commits_to, kzg_accepts, KZGCommitment, KZGCommitmentValue, KZGProof};
use crate::field::{element_bytes, FieldElement};
use crate::group::{g1_hash_of, G1Element};
use crate::sumcheck::{round_states, round_vals};
use crate::utils::{batch_state, challenge_value, CommitmentVerificationKey};
use vstd::string::StringSliceAdditionalSpecFns;
use crate::polynomials::poly_utils::{index_nodes, interpolate_vector, lagrange_sum};
use crate::utils::field_utils::{lemma_poly_eval_vals, poly_value};
use crate::polynomials::{two_to, vals, MultilinearExtension};
use crate::sumcheck::{accepts_proof, SumCheck, SumCheckOracle, SumCheckProof};
use crate::utils::{exact_log2, next_power_of_two, ProverParams, Transcript, VerifierParams};
use crate::TwistAndShoutError;
use vstd::prelude::*;

verus! {

/// One operation on memory, with the value read or written.
#[derive(Debug, Clone, Copy, PartialEq)]
pub enum MemoryOp {
    Read { address: usize, value: FieldElement },
    Write { address: usize, value: FieldElement },
}

/// The address an operation touches.
pub open spec fn op_address(op: MemoryOp) -> usize {
    match op {
        MemoryOp::Read { address, .. } => address,
        MemoryOp::Write { address, .. } => address,
    }
}

/// The value an operation reads or writes.
pub open spec fn op_value(op: MemoryOp) -> FieldElement {
    match op {
        MemoryOp::Read { value, .. } => value,
        MemoryOp::Write { value, .. } => value,
    }
}

/// The value that the last write to `a` in `ops` left there; zero where
/// there is none.
pub open spec fn last_write(ops: Seq<MemoryOp>, a: int) -> int
    decreases ops.len(),
{
    if ops.len() == 0 {
        0
    } else {
        match ops.last() {
            MemoryOp::Write { address, value } => if address == a {
                value.val()
            } else {
                last_write(ops.drop_last(), a)
            },
            MemoryOp::Read { .. } => last_write(ops.drop_last(), a),
        }
    }
}

/// Every read in `ops` returns the value of the most recent earlier write to
/// its address, or zero where there is none.
pub open spec fn reads_consistent(ops: Seq<MemoryOp>) -> bool {
    forall|i: int|
        0 <= i < ops.len() ==> (#[trigger] ops[i] is Read ==> op_value(ops[i]).val() == last_write(
            ops.take(i),
            op_address(ops[i]) as int,
        ))
}

/// A memory of `memory_size` cells, all zero at first, and the log of the
/// reads and writes made on it.
#[derive(Debug, Clone)]
pub struct MemoryTrace {
    pub memory_size: usize,
    pub operations: Vec<MemoryOp>,
    memory: Vec<FieldElement>,
}

impl MemoryTrace {
    /// The number of cells.
    pub closed spec fn cells(&self) -> usize {
        self.memory_size
    }

    /// The operations logged so far.
    pub closed spec fn ops(&self) -> Seq<MemoryOp> {
        self.operations@
    }

    /// The number of operations logged.
    pub fn num_operations(&self) -> (r: usize)
        ensures
            r == self.ops().len(),
    {
        self.operations.len()
    }

    /// The memory holds `memory_size` cells, each the last value written
    /// there; every logged operation is in bounds and every read consistent.
    pub closed spec fn wf(&self) -> bool {
        &&& self.memory@.len() == self.memory_size
        &&& forall|a: int|
            0 <= a < self.memory_size ==> #[trigger] self.memory@[a].val() == last_write(
                self.operations@,
                a,
            )
        &&& forall|i: int|
            0 <= i < self.operations.len() ==> #[trigger] op_address(self.operations@[i])
                < self.memory_size
        &&& reads_consistent(self.operations@)
    }

    /// An all-zero memory of `memory_size` cells, a power of two.
    pub fn new(memory_size: usize) -> (r: MemoryTrace)
        requires
            exists|k: nat| memory_size == two_to(k),
        ensures
            r.wf(),
            r.cells() == memory_size,
            r.ops().len() == 0,
    {
        let memory = crate::polynomials::zeros(memory_size);
        let r = MemoryTrace { memory_size, operations: Vec::new(), memory };
        proof {
            assert forall|a: int| 0 <= a < memory_size implies #[trigger] r.memory@[a].val()
                == last_write(r.operations@, a) by {
                assert(r.memory[a].val() == 0);
            }
        }
        r
    }

    /// Writes `value` at `address` and logs the write; out of bounds is an
    /// `InvalidParameters` error that changes nothing.
    pub fn write(&mut self, address: usize, value: FieldElement) -> (r: Result<(), TwistAndShoutError>)
        requires
            old(self).wf(),
        ensures
            final(self).wf(),
            final(self).cells() == old(self).cells(),
            r is Err <==> address >= old(self).cells(),
            r is Err ==> r->Err_0 is InvalidParameters && final(self).ops() == old(self).ops(),
            r is Ok ==> final(self).ops() == old(self).ops().push(
                MemoryOp::Write { address, value },
            ),
    {
        if address >= self.memory_size {
            return Err(TwistAndShoutError::InvalidParameters("Address out of bounds".to_string()));
        }
        let ghost old_ops = self.operations@;
        self.memory.set(address, value);
        self.operations.push(MemoryOp::Write { address, value });
        proof {
            let ops = self.operations@;
            assert(ops.drop_last() =~= old_ops);
            assert forall|i: int| 0 <= i < ops.len() implies (#[trigger] ops[i] is Read ==> op_value(ops[i]).val()
                == last_write(ops.take(i), op_address(ops[i]) as int)) by {
                if i < old_ops.len() {
                    assert(ops.take(i) =~= old_ops.take(i));
                    assert(ops[i] == old_ops[i]);
                }
            }
            assert forall|i: int| 0 <= i < ops.len() implies #[trigger] op_address(ops[i]) < self.memory_size by {
                if i < old_ops.len() {
                    assert(ops[i] == old_ops[i]);
                }
            }
        }
        Ok(())
    }

    /// Reads the cell at `address` and logs the read; the value is that of
    /// the last write there, or zero. Out of bounds is an `InvalidParameters`
    /// error that changes nothing.
    pub fn read(&mut self, address: usize) -> (r: Result<FieldElement, TwistAndShoutError>)
        requires
            old(self).wf(),
        ensures
            final(self).wf(),
            final(self).cells() == old(self).cells(),
            r is Err <==> address >= old(self).cells(),
            r is Err ==> r->Err_0 is InvalidParameters && final(self).ops() == old(self).ops(),
            r is Ok ==> r->Ok_0.val() == last_write(old(self).ops(), address as int)
                && final(self).ops() == old(self).ops().push(
                MemoryOp::Read { address, value: r->Ok_0 },
            ),
    {
        if address >= self.memory_size {
            return Err(TwistAndShoutError::InvalidParameters("Address out of bounds".to_string()));
        }
        let ghost old_ops = self.operations@;
        let value = self.memory[address];
        self.operations.push(MemoryOp::Read { address, value });
        proof {
            let ops = self.operations@;
            assert(ops.drop_last() =~= old_ops);
            assert(ops.take(old_ops.len() as int) =~= old_ops);
            assert forall|i: int| 0 <= i < ops.len() implies (#[trigger] ops[i] is Read ==> op_value(ops[i]).val()
                == last_write(ops.take(i), op_address(ops[i]) as int)) by {
                if i < old_ops.len() {
                    assert(ops.take(i) =~= old_ops.take(i));
                    assert(ops[i] == old_ops[i]);
                }
            }
            assert forall|i: int| 0 <= i < ops.len() implies #[trigger] op_address(ops[i]) < self.memory_size by {
                if i < old_ops.len() {
                    assert(ops[i] == old_ops[i]);
                }
            }
            assert forall|a: int| 0 <= a < self.memory_size implies #[trigger] self.memory@[a].val()
                == last_write(self.operations@, a) by {
                assert(old_ops == self.operations@.drop_last());
            }
        }
        Ok(value)
    }
}

/// A Twist proof: commitments to the padded address and value columns, the
/// sum-check proof of the consistency claim, and openings of both
/// commitments at one challenge point.
#[derive(Debug, Clone)]
pub struct TwistProof {
    pub address_commitment: KZGCommitmentValue,
    pub value_commitment: KZGCommitmentValue,
    pub consistency_proof: SumCheckProof,
    pub opening_proofs: Vec<KZGProof>,
    pub final_evaluations: Vec<FieldElement>,
}

/// The memory-consistency constraint over the padded address, value and
/// operation-type columns. It is constantly zero: the multiset argument that
/// would tie each read to its write is not part of this construction, so the
/// sum-check claim holds for every trace.
#[derive(Debug, Clone)]
pub struct ConsistencyConstraint {
    pub address: MultilinearExtension,
    pub value: MultilinearExtension,
    pub op_type: MultilinearExtension,
}

impl SumCheckOracle for ConsistencyConstraint {
    open spec fn accepts(&self, n: nat) -> bool {
        true
    }

    open spec fn value_at(&self, point: Seq<int>) -> int {
        0
    }

    open spec fn degree(&self) -> nat {
        0
    }

    fn max_degree(&self) -> (r: usize) {
        0
    }

    fn evaluate(&self, point: &[FieldElement]) -> (r: FieldElement) {
        FieldElement::zero()
    }
}

/// The Twist prover and verifier.
#[derive(Debug)]
pub struct Twist {
    prover_params: ProverParams,
}

/// The columns of a trace, padded with zeros to `size` entries.
fn columns(ops: &Vec<MemoryOp>, size: usize) -> (r: (Vec<FieldElement>, Vec<FieldElement>, Vec<FieldElement>))
    requires
        ops.len() <= size,
    ensures
        r.0.len() == size && r.1.len() == size && r.2.len() == size,
        forall|i: int|
            0 <= i < size ==> #[trigger] r.0[i].val() == if i < ops.len() {
                op_address(ops[i]) as int
            } else {
                0
            },
        forall|i: int|
            0 <= i < size ==> #[trigger] r.1[i].val() == if i < ops.len() {
                op_value(ops[i]).val()
            } else {
                0
            },
        forall|i: int|
            0 <= i < size ==> #[trigger] r.2[i].val() == if i < ops.len() && ops[i] is Write {
                1int
            } else {
                0
            },
{
    let mut addresses: Vec<FieldElement> = Vec::new();
    let mut values: Vec<FieldElement> = Vec::new();
    let mut op_types: Vec<FieldElement> = Vec::new();
    let mut i: usize = 0;
    while i < size
        invariant
            ops.len() <= size,
            i <= size,
            addresses.len() == i && values.len() == i && op_types.len() == i,
            forall|k: int|
                0 <= k < i ==> #[trigger] addresses[k].val() == if k < ops.len() {
                    op_address(ops[k]) as int
                } else {
                    0
                },
            forall|k: int|
                0 <= k < i ==> #[trigger] values[k].val() == if k < ops.len() {
                    op_value(ops[k]).val()
                } else {
                    0
                },
            forall|k: int|
                0 <= k < i ==> #[trigger] op_types[k].val() == if k < ops.len() && ops[k] is Write {
                    1int
                } else {
                    0
                },
        decreases size - i,
    {
        if i < ops.len() {
            match ops[i] {
                MemoryOp::Read { address, value } => {
                    addresses.push(FieldElement::from_u64(address as u64));
                    values.push(value);
                    op_types.push(FieldElement::zero());
                },
                MemoryOp::Write { address, value } => {
                    addresses.push(FieldElement::from_u64(address as u64));
                    values.push(value);
                    op_types.push(FieldElement::one());
                },
            }
        } else {
            addresses.push(FieldElement::zero());
            values.push(FieldElement::zero());
            op_types.push(FieldElement::zero());
        }
        i = i + 1;
    }
    (addresses, values, op_types)
}

/// The address column of `ops`, padded with zeros to `size` entries.
pub open spec fn address_column(ops: Seq<MemoryOp>, size: nat) -> Seq<int> {
    Seq::new(size, |i: int| if i < ops.len() { op_address(ops[i]) as int } else { 0 })
}

/// The value column of `ops`, padded with zeros to `size` entries.
pub open spec fn value_column(ops: Seq<MemoryOp>, size: nat) -> Seq<int> {
    Seq::new(size, |i: int| if i < ops.len() { op_value(ops[i]).val() } else { 0 })
}

/// The coefficients of the polynomial through `(i, col[i])` for every `i`.
pub open spec fn column_polynomial(col: Seq<int>) -> Seq<int> {
    lagrange_sum(index_nodes(col.len()), col, col.len())
}

/// The transcript state once the address and value commitments are absorbed.
pub open spec fn twist_start(a: G1Element, v: G1Element) -> Seq<u8> {
    Seq::<u8>::empty() + "address_commitment".spec_bytes() + element_bytes(g1_hash_of(a))
        + "value_commitment".spec_bytes() + element_bytes(g1_hash_of(v))
}

/// The opening point: the first challenge drawn after the sum-check ends in state `after`.
pub open spec fn opening_point(after: Seq<u8>) -> int {
    challenge_value(batch_state(after, "opening_challenges".spec_bytes(), 1))
}

/// The state in which a sum-check proof from `start` leaves the transcript.
pub open spec fn sumcheck_end(proof: SumCheckProof, start: Seq<u8>) -> Seq<u8> {
    round_states(round_vals(proof.round_polynomials@), start, proof.round_polynomials.len() as nat)
}

/// Whether the Twist verifier accepts `proof`: the sum-check with claim zero
/// accepts from the state after both commitments, and where there are
/// rounds and at least two openings, both openings hold at the opening point.
pub open spec fn twist_accepts(proof: TwistProof, vk: CommitmentVerificationKey) -> bool {
    let s = twist_start(proof.address_commitment.commitment, proof.value_commitment.commitment);
    let cp = proof.consistency_proof;
    let c = opening_point(sumcheck_end(cp, s));
    &&& accepts_proof(0, cp, s)
    &&& (cp.round_polynomials.len() > 0 && proof.opening_proofs.len() >= 2
        && proof.final_evaluations.len() >= 2) ==> (kzg_accepts(
        vk,
        proof.address_commitment.commitment,
        c,
        proof.final_evaluations[0].val(),
        proof.opening_proofs[0].proof,
    ) && kzg_accepts(
        vk,
        proof.value_commitment.commitment,
        c,
        proof.final_evaluations[1].val(),
        proof.opening_proofs[1].proof,
    ))
}

/// `2^k` is the smallest power of two that is at least `n` (and at least one).
pub open spec fn is_padded_log(k: nat, n: nat) -> bool {
    two_to(k) >= n && (k == 0 || two_to((k - 1) as nat) < n)
}

/// Some power of two of at least `n` is at most `limit`: the padded
/// columns of `n` entries fit a reference string of `limit` powers.
pub open spec fn fits_setup(n: nat, limit: nat) -> bool {
    exists|k: nat| n <= #[trigger] two_to(k) <= limit
}

/// The smallest power of two of at least `n` fits wherever any does.
pub proof fn lemma_padded_fits(n: nat, padded: nat, limit: nat)
    requires
        exists|j: nat| padded == two_to(j),
        padded >= n,
        padded == 1 || padded / 2 < n,
    ensures
        fits_setup(n, limit) <==> padded <= limit,
{
    let j = choose|j: nat| padded == two_to(j);
    if fits_setup(n, limit) {
        let k = choose|k: nat| n <= #[trigger] two_to(k) <= limit;
        if j <= k {
            crate::polynomials::lemma_two_to_mono(j, k);
        } else {
            assert(two_to(j) == 2 * two_to((j - 1) as nat));
            crate::polynomials::lemma_two_to_mono(k, (j - 1) as nat);
        }
    }
    if padded <= limit {
        assert(n <= two_to(j) <= limit);
    }
}

impl Twist {
    /// The operation cap of the parameters this instance was made with.
    pub closed spec fn max_operations(&self) -> usize {
        self.prover_params.max_operations
    }

    /// The number of powers in the reference string.
    pub closed spec fn setup_len(&self) -> nat {
        self.prover_params.commitment_params.g1_powers.len() as nat
    }

    /// The powers of the reference string.
    pub closed spec fn powers(&self) -> Seq<G1Element> {
        self.prover_params.commitment_params.g1_powers@
    }

    /// The cap leaves room to pad the columns to a power of two.
    #[verifier::type_invariant]
    spec fn cap_fits(self) -> bool {
        2 * self.prover_params.max_operations <= usize::MAX
    }

    pub fn new(prover_params: &ProverParams) -> (r: Twist)
        requires
            2 * prover_params.max_operations <= usize::MAX,
        ensures
            r.max_operations() == prover_params.max_operations,
            r.setup_len() == prover_params.commitment_params.g1_powers.len(),
            r.powers() == prover_params.commitment_params.g1_powers@,
    {
        Twist { prover_params: prover_params.duplicate() }
    }

    /// Proves the trace: pads the address, value and operation-type columns
    /// to the next power of two (at least one), commits to the interpolants
    /// of the address and value columns, absorbs both commitments, runs the
    /// sum-check of the consistency constraint with claimed sum zero, and
    /// opens both commitments at the first of the following challenges.
    /// Fails with `InvalidParameters` exactly when the trace has more
    /// operations than the cap, and with `Commitment` when the padded
    /// columns do not fit the reference string.
    pub fn prove(&self, trace: &MemoryTrace) -> (r: Result<TwistProof, TwistAndShoutError>)
        requires
        ensures
            (r is Err && r->Err_0 is InvalidParameters) <==> trace.ops().len() > self.max_operations(),
            r is Err ==> (r->Err_0 is InvalidParameters || r->Err_0 is Commitment),
            r is Ok <==> (trace.ops().len() <= self.max_operations() && fits_setup(
                trace.ops().len() as nat,
                self.setup_len(),
            )),
            r is Ok ==> ({
                let proof = r->Ok_0;
                let k = proof.consistency_proof.round_polynomials.len() as nat;
                let s = twist_start(proof.address_commitment.commitment, proof.value_commitment.commitment);
                let c = opening_point(sumcheck_end(proof.consistency_proof, s));
                &&& is_padded_log(k, trace.ops().len() as nat)
                &&& commits_to(
                    proof.address_commitment.commitment,
                    column_polynomial(address_column(trace.ops(), two_to(k))),
                    self.powers(),
                )
                &&& commits_to(
                    proof.value_commitment.commitment,
                    column_polynomial(value_column(trace.ops(), two_to(k))),
                    self.powers(),
                )
                &&& accepts_proof(0, proof.consistency_proof, s)
                &&& k > 0 ==> proof.final_evaluations[0].val() == poly_value(
                    column_polynomial(address_column(trace.ops(), two_to(k))),
                    c,
                ) && proof.final_evaluations[1].val() == poly_value(
                    column_polynomial(value_column(trace.ops(), two_to(k))),
                    c,
                )
                &&& proof.opening_proofs.len() == proof.final_evaluations.len()
                &&& proof.final_evaluations.len() == if proof.consistency_proof.round_polynomials.len()
                    == 0 {
                    0int
                } else {
                    2int
                }
            }),
    {
        proof {
            use_type_invariant(self);
        }
        let n = trace.operations.len();
        if n > self.prover_params.max_operations {
            return Err(TwistAndShoutError::InvalidParameters("Too many operations".to_string()));
        }
        let padded_size = next_power_of_two(n);
        proof {
            lemma_padded_fits(n as nat, padded_size as nat, self.setup_len());
        }
        let (padded_addresses, padded_values, padded_op_types) = columns(&trace.operations, padded_size);
        let ghost ops = trace.operations@;
        proof {
            assert(vals(padded_addresses@) =~= address_column(ops, padded_size as nat));
            assert(vals(padded_values@) =~= value_column(ops, padded_size as nat));
        }
        let address_poly = interpolate_vector(padded_addresses.as_slice());
        let value_poly = interpolate_vector(padded_values.as_slice());
        let address_commitment = match KZGCommitment::commit(
            &self.prover_params.commitment_params,
            address_poly.as_slice(),
        ) {
            Ok(c) => c,
            Err(e) => {
                return Err(e);
            },
        };
        let value_commitment = match KZGCommitment::commit(
            &self.prover_params.commitment_params,
            value_poly.as_slice(),
        ) {
            Ok(c) => c,
            Err(e) => {
                return Err(e);
            },
        };
        let log_ops = exact_log2(padded_size);
        let sumcheck = SumCheck::new(log_ops, FieldElement::zero());
        let mut transcript = Transcript::new(&self.prover_params.fiat_shamir_seed);
        transcript.append_field_element("address_commitment".as_bytes(), &address_commitment.hash());
        transcript.append_field_element("value_commitment".as_bytes(), &value_commitment.hash());
        let constraint = ConsistencyConstraint {
            address: MultilinearExtension::from_evaluations_vec(log_ops, padded_addresses),
            value: MultilinearExtension::from_evaluations_vec(log_ops, padded_values),
            op_type: MultilinearExtension::from_evaluations_vec(log_ops, padded_op_types),
        };
        let ghost s = transcript.state();
        let consistency_proof = match sumcheck.prove(&constraint, &mut transcript) {
            Ok(p) => p,
            Err(e) => {
                return Err(e);
            },
        };
        let challenges = transcript.challenge_field_elements("opening_challenges".as_bytes(), log_ops);
        let mut opening_proofs: Vec<KZGProof> = Vec::new();
        let mut final_evaluations: Vec<FieldElement> = Vec::new();
        if challenges.len() > 0 {
            let (address_eval, address_opening) = match KZGCommitment::open(
                &self.prover_params.commitment_params,
                address_poly.as_slice(),
                challenges[0],
            ) {
                Ok(v) => v,
                Err(e) => {
                    return Err(e);
                },
            };
            let (value_eval, value_opening) = match KZGCommitment::open(
                &self.prover_params.commitment_params,
                value_poly.as_slice(),
                challenges[0],
            ) {
                Ok(v) => v,
                Err(e) => {
                    return Err(e);
                },
            };
            opening_proofs.push(address_opening);
            opening_proofs.push(value_opening);
            final_evaluations.push(address_eval);
            final_evaluations.push(value_eval);
            proof {
                lemma_poly_eval_vals(address_poly@, challenges[0].val());
                lemma_poly_eval_vals(value_poly@, challenges[0].val());
                let c = challenges[0].val();
                assert(final_evaluations[0].val() == poly_value(
                    column_polynomial(address_column(ops, two_to(log_ops as nat))),
                    c,
                ));
                assert(final_evaluations[1].val() == poly_value(
                    column_polynomial(value_column(ops, two_to(log_ops as nat))),
                    c,
                ));
            }
        }
        proof {
            if log_ops > 0 {
                assert(two_to(log_ops as nat) == 2 * two_to((log_ops - 1) as nat));
            }
        }
        Ok(TwistProof {
            address_commitment,
            value_commitment,
            consistency_proof,
            opening_proofs,
            final_evaluations,
        })
    }

    /// Replays the transcript, checks the sum-check proof with claimed sum
    /// zero, then, where there are challenges and at least two openings,
    /// checks the address and value openings at the first one. `Ok(false)`
    /// where a check fails.
    pub fn verify(&self, proof: &TwistProof, verifier_params: &VerifierParams) -> (r: Result<
        bool,
        TwistAndShoutError,
    >)
        ensures
            r is Ok,
            r == Ok::<bool, TwistAndShoutError>(twist_accepts(*proof, verifier_params.commitment_vk)),
    {
        let mut transcript = Transcript::new(&verifier_params.fiat_shamir_seed);
        transcript.append_field_element("address_commitment".as_bytes(), &proof.address_commitment.hash());
        transcript.append_field_element("value_commitment".as_bytes(), &proof.value_commitment.hash());
        let num_vars = proof.consistency_proof.round_polynomials.len();
        let sumcheck = SumCheck::new(num_vars, FieldElement::zero());
        let ghost s = transcript.state();
        let (sumcheck_valid, _challenges) = match sumcheck.verify(&proof.consistency_proof, &mut transcript) {
            Ok(v) => v,
            Err(e) => {
                return Ok(false);
            },
        };
        if !sumcheck_valid {
            return Ok(false);
        }
        let opening_challenges = transcript.challenge_field_elements("opening_challenges".as_bytes(), num_vars);
        if opening_challenges.len() > 0 && proof.opening_proofs.len() >= 2 && proof.final_evaluations.len() >= 2 {
            let address_valid = match KZGCommitment::verify(
                &verifier_params.commitment_vk,
                &proof.address_commitment,
                opening_challenges[0],
                proof.final_evaluations[0],
                &proof.opening_proofs[0],
            ) {
                Ok(v) => v,
                Err(e) => false,
            };
            if !address_valid {
                return Ok(false);
            }
            let value_valid = match KZGCommitment::verify(
                &verifier_params.commitment_vk,
                &proof.value_commitment,
                opening_challenges[0],
                proof.final_evaluations[1],
                &proof.opening_proofs[1],
            ) {
                Ok(v) => v,
                Err(e) => false,
            };
            if !value_valid {
                return Ok(false);
            }
        }
        Ok(true)
    }
}

} // verus!
