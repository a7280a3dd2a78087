//! Timing of setup, proving and verification for Twist and Shout.

use crate::field::FieldElement;
use crate::polynomials::{two_to, two_to_usize};
use crate::shout::{LookupTable, Shout, ShoutProof};
use crate::twist::{MemoryTrace, Twist, TwistProof};
use crate::utils::setup_params;
use crate::TwistAndShoutError;
use vstd::prelude::*;

verus! {

#[verifier::external_type_specification]
#[verifier::external_body]
pub struct ExInstant(std::time::Instant);

/// Relies on std's `Instant::now`.
#[verifier::external_body]
fn clock_now() -> std::time::Instant {
    std::time::Instant::now()
}

/// Relies on std's `Instant::elapsed` and `Duration::as_nanos`: the
/// nanoseconds since `start`.
#[verifier::external_body]
fn nanos_since(start: &std::time::Instant) -> u128 {
    start.elapsed().as_nanos()
}

/// The measurements of one protocol run. Times are in nanoseconds.
#[derive(Debug, Clone, Copy)]
pub struct BenchmarkResults {
    pub setup_time: u128,
    pub prove_time: u128,
    pub verify_time: u128,
    /// Estimated proof size in bytes.
    pub proof_size: usize,
    pub num_operations: usize,
    /// Estimated memory use in bytes.
    pub memory_usage: usize,
}

impl BenchmarkResults {
    /// Setup, proving and verification time together.
    pub fn total_time(&self) -> (r: u128)
        requires
            self.setup_time + self.prove_time + self.verify_time <= u128::MAX,
        ensures
            r == self.setup_time + self.prove_time + self.verify_time,
    {
        self.setup_time + self.prove_time + self.verify_time
    }
}

/// `a * b`, or `usize::MAX` where that does not fit.
fn saturating_product(a: usize, b: usize) -> (r: usize)
    ensures
        a * b <= usize::MAX ==> r == a * b,
        a * b > usize::MAX ==> r == usize::MAX,
{
    if b == 0 || a <= usize::MAX / b {
        proof {
            if b > 0 {
                assert(a * b <= (usize::MAX / b) * b) by (nonlinear_arith)
                    requires a <= usize::MAX / b, b > 0;
                assert((usize::MAX / b) * b <= usize::MAX) by (nonlinear_arith)
                    requires b > 0;
            }
        }
        a * b
    } else {
        proof {
            assert(a * b > usize::MAX) by (nonlinear_arith)
                requires a > usize::MAX / b, b > 0;
        }
        usize::MAX
    }
}

/// `a + b`, or `usize::MAX` where that does not fit.
fn saturating_sum(a: usize, b: usize) -> (r: usize)
    ensures
        a + b <= usize::MAX ==> r == a + b,
        a + b > usize::MAX ==> r == usize::MAX,
{
    if a <= usize::MAX - b {
        a + b
    } else {
        usize::MAX
    }
}

/// The number of operations a benchmark of `size` cells makes: half the
/// size up to 64, a quarter up to 512, an eighth beyond.
pub open spec fn scaled_operations(size: int) -> int {
    if size <= 64 {
        size / 2
    } else if size <= 512 {
        size / 4
    } else {
        size / 8
    }
}

/// The size and memory estimates of a run on `size` cells with `ops`
/// operations: the proof has `k` sum-check rounds for the smallest `2^k` of
/// at least `ops`, two openings where `k > 0`, and sizes add up as the
/// estimators say (where they fit in a `usize`).
pub open spec fn estimates_hold(r: BenchmarkResults, size: nat, ops: nat) -> bool {
    &&& size * 32 + ops * 96 <= usize::MAX ==> r.memory_usage == size * 32 + ops * 96
    &&& exists|k: nat|
        crate::twist::is_padded_log(k, ops) && (128 + k * 128 + (if k > 0 { 128int } else { 0 })
            <= usize::MAX ==> r.proof_size == 128 + k * 128 + (if k > 0 { 128int } else { 0 }))
}

/// The benchmark suite.
pub struct ProtocolBenchmarks;

impl ProtocolBenchmarks {
    /// Twist at memory sizes `2^4` to `2^8`.
    pub fn benchmark_twist_scaling() -> (r: Result<Vec<(usize, BenchmarkResults)>, TwistAndShoutError>)
        ensures
            r is Ok ==> r->Ok_0.len() == 5,
            r is Ok ==> forall|i: int|
                0 <= i < 5 ==> #[trigger] r->Ok_0[i].0 == two_to((4 + i) as nat)
                    && r->Ok_0[i].1.num_operations == scaled_operations(r->Ok_0[i].0 as int),
    {
        proof {
            reveal_with_fuel(two_to, 12);
        }
        Self::benchmark_twist_scaling_range(4, 8)
    }

    /// Twist at memory sizes `2^min_log_size` to `2^max_log_size`, each with
    /// the scaled number of operations; entry `i` is for size `2^(min + i)`.
    pub fn benchmark_twist_scaling_range(min_log_size: usize, max_log_size: usize) -> (r: Result<
        Vec<(usize, BenchmarkResults)>,
        TwistAndShoutError,
    >)
        requires
            min_log_size <= max_log_size,
            two_to((max_log_size + 3) as nat) <= usize::MAX,
        ensures
            r is Ok ==> r->Ok_0.len() == max_log_size - min_log_size + 1,
            r is Ok ==> forall|i: int|
                0 <= i < r->Ok_0.len() ==> #[trigger] r->Ok_0[i].0 == two_to((min_log_size + i) as nat)
                    && r->Ok_0[i].1.num_operations == scaled_operations(r->Ok_0[i].0 as int),
    {
        let mut results: Vec<(usize, BenchmarkResults)> = Vec::new();
        let mut log_size: usize = min_log_size;
        while log_size <= max_log_size
            invariant
                min_log_size <= log_size <= max_log_size + 1,
                two_to((max_log_size + 3) as nat) <= usize::MAX,
                results.len() == log_size - min_log_size,
                forall|i: int|
                    0 <= i < results.len() ==> #[trigger] results[i].0 == two_to((min_log_size + i) as nat)
                        && results[i].1.num_operations == scaled_operations(results[i].0 as int),
            decreases max_log_size + 1 - log_size,
        {
            proof {
                crate::polynomials::lemma_two_to_gt((max_log_size + 3) as nat);
                crate::polynomials::lemma_two_to_mono((log_size + 3) as nat, (max_log_size + 3) as nat);
                crate::polynomials::lemma_two_to_mono(log_size as nat, (log_size + 3) as nat);
            }
            let memory_size = two_to_usize(log_size);
            let num_operations = scaled_count(memory_size);
            proof {
                crate::polynomials::lemma_two_to_mono(log_size as nat, (log_size + 3) as nat);
                assert(two_to((log_size + 3) as nat) == 2 * two_to((log_size + 2) as nat));
                assert(two_to((log_size + 2) as nat) == 2 * two_to((log_size + 1) as nat));
                assert(two_to((log_size + 1) as nat) == 2 * two_to(log_size as nat));
            }
            let bench_result = match Self::benchmark_twist_single(log_size, num_operations) {
                Ok(b) => b,
                Err(e) => {
                    return Err(e);
                },
            };
            results.push((memory_size, bench_result));
            log_size = log_size + 1;
        }
        Ok(results)
    }

    /// One Twist run: setup, a trace of `num_operations` operations on
    /// `2^log_size` cells (a write at `i mod size` of `42 i` for `i`
    /// divisible by three, else a read at `(i / 2) mod size`), proving and
    /// verifying, each timed. A proof that does not verify is a
    /// `ProofVerification` error; errors of the prover are passed on.
    pub fn benchmark_twist_single(log_size: usize, num_operations: usize) -> (r: Result<
        BenchmarkResults,
        TwistAndShoutError,
    >)
        requires
            two_to((log_size + 3) as nat) <= usize::MAX,
            4 * num_operations < usize::MAX,
        ensures
            num_operations <= two_to((log_size + 2) as nat) ==> (r is Err ==> r->Err_0 is ProofVerification),
            r is Ok ==> r->Ok_0.num_operations == num_operations,
            r is Ok ==> estimates_hold(r->Ok_0, two_to(log_size as nat), num_operations as nat),
    {
        let setup_start = clock_now();
        let (prover_params, verifier_params) = setup_params(log_size);
        let twist = Twist::new(&prover_params);
        let setup_time = nanos_since(&setup_start);
        proof {
            crate::polynomials::lemma_two_to_mono(log_size as nat, (log_size + 3) as nat);
            crate::polynomials::lemma_two_to_pos(log_size as nat);
            assert(two_to((log_size + 3) as nat) == 2 * two_to((log_size + 2) as nat));
            assert(two_to((log_size + 2) as nat) == 2 * two_to((log_size + 1) as nat));
            assert(two_to((log_size + 1) as nat) == 2 * two_to(log_size as nat));
        }
        let memory_size = two_to_usize(log_size);
        let mut trace = MemoryTrace::new(memory_size);
        let forty_two = FieldElement::from_u64(42);
        let mut i: usize = 0;
        while i < num_operations
            invariant
                i <= num_operations,
                trace.wf(),
                trace.cells() == memory_size,
                memory_size >= 1,
                trace.ops().len() == i,
            decreases num_operations - i,
        {
            if i % 3 == 0 {
                let addr = i % memory_size;
                let value = FieldElement::from_u64(i as u64).mul(&forty_two);
                let _ = trace.write(addr, value);
            } else {
                let addr = (i / 2) % memory_size;
                let _ = trace.read(addr);
            }
            i = i + 1;
        }
        proof {
            if num_operations <= two_to((log_size + 2) as nat) {
                let k = (log_size + 2) as nat;
                assert(num_operations <= two_to(k) <= prover_params.commitment_params.g1_powers.len());
            }
        }
        let prove_start = clock_now();
        let proof = match twist.prove(&trace) {
            Ok(p) => p,
            Err(e) => {
                return Err(e);
            },
        };
        let prove_time = nanos_since(&prove_start);
        let verify_start = clock_now();
        let is_valid = match twist.verify(&proof, &verifier_params) {
            Ok(v) => v,
            Err(e) => {
                return Err(e);
            },
        };
        let verify_time = nanos_since(&verify_start);
        if !is_valid {
            return Err(
                TwistAndShoutError::ProofVerification("Proof verification failed".to_string()),
            );
        }
        let proof_size = Self::estimate_twist_proof_size(&proof);
        let memory_usage = Self::estimate_memory_usage(memory_size, num_operations);
        Ok(BenchmarkResults {
            setup_time,
            prove_time,
            verify_time,
            proof_size,
            num_operations: trace.num_operations(),
            memory_usage,
        })
    }

    /// Shout at table sizes `2^4` to `2^8`.
    pub fn benchmark_shout_scaling() -> (r: Result<Vec<(usize, BenchmarkResults)>, TwistAndShoutError>)
        ensures
            r is Ok ==> r->Ok_0.len() == 5,
            r is Ok ==> forall|i: int|
                0 <= i < 5 ==> #[trigger] r->Ok_0[i].0 == two_to((4 + i) as nat)
                    && r->Ok_0[i].1.num_operations == scaled_operations(r->Ok_0[i].0 as int),
    {
        proof {
            reveal_with_fuel(two_to, 12);
        }
        Self::benchmark_shout_scaling_range(4, 8)
    }

    /// Shout at table sizes `2^min_log_size` to `2^max_log_size`, each with
    /// the scaled number of lookups; entry `i` is for size `2^(min + i)`.
    pub fn benchmark_shout_scaling_range(min_log_size: usize, max_log_size: usize) -> (r: Result<
        Vec<(usize, BenchmarkResults)>,
        TwistAndShoutError,
    >)
        requires
            min_log_size <= max_log_size,
            two_to((max_log_size + 3) as nat) <= usize::MAX,
        ensures
            r is Ok ==> r->Ok_0.len() == max_log_size - min_log_size + 1,
            r is Ok ==> forall|i: int|
                0 <= i < r->Ok_0.len() ==> #[trigger] r->Ok_0[i].0 == two_to((min_log_size + i) as nat)
                    && r->Ok_0[i].1.num_operations == scaled_operations(r->Ok_0[i].0 as int),
    {
        let mut results: Vec<(usize, BenchmarkResults)> = Vec::new();
        let mut log_size: usize = min_log_size;
        while log_size <= max_log_size
            invariant
                min_log_size <= log_size <= max_log_size + 1,
                two_to((max_log_size + 3) as nat) <= usize::MAX,
                results.len() == log_size - min_log_size,
                forall|i: int|
                    0 <= i < results.len() ==> #[trigger] results[i].0 == two_to((min_log_size + i) as nat)
                        && results[i].1.num_operations == scaled_operations(results[i].0 as int),
            decreases max_log_size + 1 - log_size,
        {
            proof {
                crate::polynomials::lemma_two_to_gt((max_log_size + 3) as nat);
                crate::polynomials::lemma_two_to_mono((log_size + 3) as nat, (max_log_size + 3) as nat);
                crate::polynomials::lemma_two_to_mono(log_size as nat, (log_size + 3) as nat);
            }
            let table_size = two_to_usize(log_size);
            let num_lookups = scaled_count(table_size);
            proof {
                crate::polynomials::lemma_two_to_mono(log_size as nat, (log_size + 3) as nat);
                assert(two_to((log_size + 3) as nat) == 2 * two_to((log_size + 2) as nat));
                assert(two_to((log_size + 2) as nat) == 2 * two_to((log_size + 1) as nat));
                assert(two_to((log_size + 1) as nat) == 2 * two_to(log_size as nat));
            }
            let bench_result = match Self::benchmark_shout_single(log_size, num_lookups) {
                Ok(b) => b,
                Err(e) => {
                    return Err(e);
                },
            };
            results.push((table_size, bench_result));
            log_size = log_size + 1;
        }
        Ok(results)
    }

    /// One Shout run: setup, a table of the `2^log_size` squares `i * i`,
    /// `num_lookups` lookups (the `i`-th at `i mod size`), proving and
    /// verifying, each timed. A proof that does not verify is a
    /// `ProofVerification` error; errors of the prover are passed on.
    pub fn benchmark_shout_single(log_size: usize, num_lookups: usize) -> (r: Result<
        BenchmarkResults,
        TwistAndShoutError,
    >)
        requires
            two_to((log_size + 3) as nat) <= usize::MAX,
            4 * num_lookups < usize::MAX,
        ensures
            num_lookups <= two_to((log_size + 2) as nat) ==> (r is Err ==> r->Err_0 is ProofVerification),
            r is Ok ==> r->Ok_0.num_operations == num_lookups,
            r is Ok ==> estimates_hold(r->Ok_0, two_to(log_size as nat), num_lookups as nat),
    {
        let setup_start = clock_now();
        let (prover_params, verifier_params) = setup_params(log_size);
        let shout = Shout::new(&prover_params);
        let setup_time = nanos_since(&setup_start);
        proof {
            crate::polynomials::lemma_two_to_mono(log_size as nat, (log_size + 3) as nat);
            crate::polynomials::lemma_two_to_pos(log_size as nat);
            assert(two_to((log_size + 3) as nat) == 2 * two_to((log_size + 2) as nat));
            assert(two_to((log_size + 2) as nat) == 2 * two_to((log_size + 1) as nat));
            assert(two_to((log_size + 1) as nat) == 2 * two_to(log_size as nat));
        }
        let table_size = two_to_usize(log_size);
        let mut entries: Vec<FieldElement> = Vec::new();
        let mut i: usize = 0;
        while i < table_size
            invariant
                i <= table_size,
                entries.len() == i,
            decreases table_size - i,
        {
            let x = FieldElement::from_u64(i as u64);
            entries.push(x.mul(&x));
            i = i + 1;
        }
        let mut table = LookupTable::new(entries);
        let mut i: usize = 0;
        while i < num_lookups
            invariant
                i <= num_lookups,
                table.entries.len() == table_size,
                table_size >= 1,
                table.lookups.len() == i,
            decreases num_lookups - i,
        {
            let _ = table.lookup(i % table_size);
            i = i + 1;
        }
        proof {
            if num_lookups <= two_to((log_size + 2) as nat) {
                let k = (log_size + 2) as nat;
                assert(num_lookups <= two_to(k) <= prover_params.commitment_params.g1_powers.len());
                assert(table_size <= two_to(k) <= prover_params.commitment_params.g1_powers.len());
            }
        }
        let prove_start = clock_now();
        let proof = match shout.prove(&table) {
            Ok(p) => p,
            Err(e) => {
                return Err(e);
            },
        };
        let prove_time = nanos_since(&prove_start);
        let verify_start = clock_now();
        let is_valid = match shout.verify(&proof, &verifier_params) {
            Ok(v) => v,
            Err(e) => {
                return Err(e);
            },
        };
        let verify_time = nanos_since(&verify_start);
        if !is_valid {
            return Err(
                TwistAndShoutError::ProofVerification("Proof verification failed".to_string()),
            );
        }
        let proof_size = Self::estimate_shout_proof_size(&proof);
        let memory_usage = Self::estimate_memory_usage(table_size, num_lookups);
        Ok(BenchmarkResults {
            setup_time,
            prove_time,
            verify_time,
            proof_size,
            num_operations: table.lookups.len(),
            memory_usage,
        })
    }

    /// Twist and then Shout at the same size and operation count.
    pub fn comparative_benchmark(log_size: usize, num_operations: usize) -> (r: Result<
        (BenchmarkResults, BenchmarkResults),
        TwistAndShoutError,
    >)
        requires
            two_to((log_size + 3) as nat) <= usize::MAX,
            4 * num_operations < usize::MAX,
        ensures
            num_operations <= two_to((log_size + 2) as nat) ==> (r is Err ==> r->Err_0 is ProofVerification),
            r is Ok ==> r->Ok_0.0.num_operations == num_operations && r->Ok_0.1.num_operations
                == num_operations,
    {
        let twist_results = match Self::benchmark_twist_single(log_size, num_operations) {
            Ok(b) => b,
            Err(e) => {
                return Err(e);
            },
        };
        let shout_results = match Self::benchmark_shout_single(log_size, num_operations) {
            Ok(b) => b,
            Err(e) => {
                return Err(e);
            },
        };
        Ok((twist_results, shout_results))
    }

    /// Estimated size of a Twist proof: two 64-byte commitments, 128 bytes
    /// per sum-check round and 64 per opening (saturating).
    fn estimate_twist_proof_size(proof: &TwistProof) -> (r: usize)
        ensures
            2 * 64 + proof.consistency_proof.round_polynomials.len() * 128 + proof.opening_proofs.len() * 64
                <= usize::MAX ==> r == 2 * 64 + proof.consistency_proof.round_polynomials.len() * 128
                + proof.opening_proofs.len() * 64,
    {
        let sumcheck_size = saturating_product(proof.consistency_proof.round_polynomials.len(), 128);
        let opening_size = saturating_product(proof.opening_proofs.len(), 64);
        saturating_sum(saturating_sum(128, sumcheck_size), opening_size)
    }

    /// Estimated size of a Shout proof, as for Twist.
    fn estimate_shout_proof_size(proof: &ShoutProof) -> (r: usize)
        ensures
            2 * 64 + proof.lookup_proof.round_polynomials.len() * 128 + proof.opening_proofs.len() * 64
                <= usize::MAX ==> r == 2 * 64 + proof.lookup_proof.round_polynomials.len() * 128
                + proof.opening_proofs.len() * 64,
    {
        let sumcheck_size = saturating_product(proof.lookup_proof.round_polynomials.len(), 128);
        let opening_size = saturating_product(proof.opening_proofs.len(), 64);
        saturating_sum(saturating_sum(128, sumcheck_size), opening_size)
    }

    /// Estimated memory use: 32 bytes per table cell and 96 per operation (saturating).
    fn estimate_memory_usage(table_size: usize, num_operations: usize) -> (r: usize)
        ensures
            table_size * 32 + num_operations * 96 <= usize::MAX ==> r == table_size * 32
                + num_operations * 96,
    {
        let table_memory = saturating_product(table_size, 32);
        let operations_memory = saturating_product(num_operations, 96);
        saturating_sum(table_memory, operations_memory)
    }
}

/// The scaled number of operations for `size` cells.
fn scaled_count(size: usize) -> (r: usize)
    ensures
        r == scaled_operations(size as int),
{
    if size <= 64 {
        size / 2
    } else if size <= 512 {
        size / 4
    } else {
        size / 8
    }
}

/// The operation caps that setup gives the prover and the verifier.
pub fn benchmark_setup(log_size: usize) -> (r: (usize, usize))
    requires
        two_to((log_size + 3) as nat) <= usize::MAX,
    ensures
        r.0 == two_to((log_size + 2) as nat),
        r.1 == r.0,
{
    let (prover_params, verifier_params) = setup_params(log_size);
    (prover_params.max_operations, verifier_params.max_operations)
}

} // verus!
