use twist_and_shout::benchmarks::{benchmark_setup, BenchmarkResults, ProtocolBenchmarks};
use twist_and_shout::commitments::{polynomial_division, KZGVectorCommitment};
use twist_and_shout::polynomials::poly_utils::{derivative, evaluate_polynomial, lagrange_interpolate};
use twist_and_shout::polynomials::LessThanPolynomial;
use twist_and_shout::sumcheck::{MleProduct, SumCheck};
use twist_and_shout::utils::field_utils::{horner_eval, vanishing_poly_eval};
use twist_and_shout::utils::{next_power_of_two, setup_params_with_seed, Transcript};
use twist_and_shout::commitments::VectorCommitmentScheme;
use twist_and_shout::CommitmentScheme;
use twist_and_shout::TwistAndShoutError;
use twist_and_shout::{
    setup_params, FieldElement, KZGCommitment, LookupTable, MemoryOp, MemoryTrace,
    MultilinearExtension, Shout, Twist,
};

fn fe(n: u64) -> FieldElement {
    FieldElement::from(n)
}

fn bool_point(i: usize, n: usize) -> Vec<FieldElement> {
    (0..n)
        .map(|j| if (i >> j) & 1 == 1 { FieldElement::one() } else { FieldElement::zero() })
        .collect()
}

fn memory_scenario() -> MemoryTrace {
    let mut trace = MemoryTrace::new(8);
    trace.write(0, fe(42)).unwrap();
    trace.write(1, fe(100)).unwrap();
    assert_eq!(trace.read(0).unwrap(), fe(42));
    assert_eq!(trace.read(1).unwrap(), fe(100));
    trace.write(0, fe(43)).unwrap();
    assert_eq!(trace.read(0).unwrap(), fe(43));
    trace
}

fn squares_table() -> LookupTable {
    let entries: Vec<FieldElement> = [0u64, 1, 4, 9, 16, 25, 36, 49].iter().map(|&v| fe(v)).collect();
    let mut table = LookupTable::new(entries);
    assert_eq!(table.lookup(3).unwrap(), fe(9));
    assert_eq!(table.lookup(5).unwrap(), fe(25));
    assert_eq!(table.lookup(0).unwrap(), fe(0));
    assert_eq!(table.lookup(7).unwrap(), fe(49));
    table
}

#[test]
fn field_arithmetic_is_modular() {
    assert_eq!(fe(5).add(&fe(7)), fe(12));
    assert_eq!(fe(5).sub(&fe(7)).add(&fe(2)), fe(0));
    assert_eq!(fe(6).mul(&fe(7)), fe(42));
    assert_eq!(fe(1).neg().add(&fe(1)), fe(0));
    assert_ne!(fe(1).neg(), fe(1));
    assert_eq!(fe(3).mul(&fe(3).inverse().unwrap()), fe(1));
    assert!(fe(0).inverse().is_none());
    assert!(fe(0).is_zero());
    assert!(!fe(9).is_zero());
    assert_eq!(fe(u64::MAX).mul(&fe(u64::MAX)), fe(u64::MAX).mul(&fe(u64::MAX)));
    let two_64 = fe(u64::MAX).add(&fe(1));
    assert_ne!(two_64, fe(0));
    assert_eq!(two_64.sub(&fe(1)), fe(u64::MAX));
}

#[test]
fn field_encoding_is_little_endian() {
    let bytes = fe(0x0102).to_bytes();
    assert_eq!(bytes.len(), 32);
    assert_eq!(bytes[0], 0x02);
    assert_eq!(bytes[1], 0x01);
    assert!(bytes[2..].iter().all(|&b| b == 0));
}

#[test]
fn mle_agrees_on_every_vertex() {
    let values: Vec<FieldElement> = (0..8u64).map(|i| fe(i * i + 3)).collect();
    let mle = MultilinearExtension::from_evaluations(values.clone());
    assert_eq!(mle.num_vars, 3);
    for i in 0..8 {
        assert_eq!(mle.evaluate(&bool_point(i, 3)), values[i]);
    }
}

#[test]
fn mle_is_linear() {
    let a = MultilinearExtension::from_evaluations(vec![fe(1), fe(9), fe(4), fe(7)]);
    let b = MultilinearExtension::from_evaluations(vec![fe(11), fe(2), fe(6), fe(5)]);
    let sum = a.add(&b);
    for point in [vec![fe(3), fe(7)], vec![fe(123456), fe(0)], vec![fe(1).neg(), fe(2)]] {
        assert_eq!(sum.evaluate(&point), a.evaluate(&point).add(&b.evaluate(&point)));
    }
}

#[test]
fn mle_formula_on_a_general_point() {
    let mle = MultilinearExtension::from_evaluations(vec![fe(1), fe(2), fe(3), fe(4)]);
    let (r1, r2) = (fe(10), fe(20));
    let one = FieldElement::one();
    let expected = fe(1)
        .mul(&one.sub(&r1))
        .mul(&one.sub(&r2))
        .add(&fe(2).mul(&r1).mul(&one.sub(&r2)))
        .add(&fe(3).mul(&one.sub(&r1)).mul(&r2))
        .add(&fe(4).mul(&r1).mul(&r2));
    assert_eq!(mle.evaluate(&[r1, r2]), expected);
    // 1 + 10 + 40 = 51 for the table 1, 2, 3, 4
    assert_eq!(expected, fe(51));
}

#[test]
fn sparse_entries_overwrite_in_order() {
    let mle = MultilinearExtension::from_sparse(2, &[(1, fe(5)), (3, fe(8)), (1, fe(7))]);
    assert_eq!(mle.evaluations, vec![fe(0), fe(7), fe(0), fe(8)]);
}

#[test]
fn partial_evaluation_without_fixed_values_keeps_the_table() {
    let mle = MultilinearExtension::from_evaluations(vec![fe(3), fe(1), fe(4), fe(1)]);
    let same = mle.partial_evaluate(&[]);
    assert_eq!(same.num_vars, 2);
    assert_eq!(same.evaluations, mle.evaluations);
    let fixed = mle.partial_evaluate(&[fe(2), fe(3)]);
    assert_eq!(fixed.num_vars, 0);
    assert_eq!(fixed.evaluations, vec![mle.evaluate(&[fe(2), fe(3)])]);
}

#[test]
fn sum_and_scaling_of_tables() {
    let mle = MultilinearExtension::from_evaluations(vec![fe(3), fe(1), fe(4), fe(1)]);
    assert_eq!(mle.sum_evaluations(), fe(9));
    assert_eq!(mle.scalar_mul(fe(2)).evaluations, vec![fe(6), fe(2), fe(8), fe(2)]);
}

#[test]
fn less_than_table() {
    let lt = LessThanPolynomial::new(1);
    let mle = lt.to_multilinear_extension();
    assert_eq!(mle.num_vars, 2);
    // entry x compares bit 0 of x with bit 1 of x: only x = 2 has a = 0 < b = 1
    assert_eq!(mle.evaluations, vec![fe(0), fe(0), fe(1), fe(0)]);
    assert_eq!(lt.evaluate_at_field_elements(fe(0), fe(1)), fe(1));
    assert_eq!(lt.evaluate_at_field_elements(fe(1), fe(0)), fe(0));
    let lt3 = LessThanPolynomial::new(3);
    // 6 = 011 and 5 = 101, least significant bit first: they differ first at bit 0
    assert_eq!(lt3.evaluate_at_field_elements(fe(6), fe(5)), fe(1));
}

#[test]
fn lagrange_round_trip() {
    let points = vec![(fe(0), fe(0)), (fe(1), fe(1)), (fe(2), fe(4))];
    let coeffs = lagrange_interpolate(&points);
    assert_eq!(coeffs, vec![fe(0), fe(0), fe(1)]);
    assert_eq!(evaluate_polynomial(&coeffs, fe(5)), fe(25));
    assert_eq!(horner_eval(&coeffs, fe(5)), fe(25));
    assert!(lagrange_interpolate(&[]).is_empty());
}

#[test]
fn lagrange_passes_through_its_points() {
    let points = vec![(fe(3), fe(10)), (fe(7), fe(2)), (fe(11), fe(5)), (fe(20), fe(0))];
    let coeffs = lagrange_interpolate(&points);
    for (x, y) in points {
        assert_eq!(horner_eval(&coeffs, x), y);
    }
}

#[test]
fn vanishing_and_derivative() {
    assert_eq!(vanishing_poly_eval(&[fe(1), fe(2)], fe(5)), fe(12));
    assert_eq!(vanishing_poly_eval(&[], fe(5)), fe(1));
    assert_eq!(derivative(&[fe(7)]), vec![fe(0)]);
    assert_eq!(derivative(&[]), vec![fe(0)]);
}

#[test]
fn polynomial_division_by_zero_is_an_error() {
    let r = polynomial_division(&[fe(1), fe(2)], &[fe(0), fe(0)]);
    assert!(matches!(r, Err(TwistAndShoutError::Polynomial(_))));
    let r = polynomial_division(&[fe(1), fe(2)], &[]);
    assert!(matches!(r, Err(TwistAndShoutError::Polynomial(_))));
    let r = polynomial_division(&[fe(1)], &[fe(1), fe(1)]).unwrap();
    assert!(r.is_empty());
}

#[test]
fn kzg_degree_bound() {
    let (prover_params, _) = setup_params(1);
    let len = prover_params.commitment_params.g1_powers.len();
    let too_long = vec![fe(1); len + 1];
    let r = KZGCommitment::commit(&prover_params.commitment_params, &too_long);
    assert!(matches!(r, Err(TwistAndShoutError::Commitment(_))));
    let fits = vec![fe(1); len];
    assert!(KZGCommitment::commit(&prover_params.commitment_params, &fits).is_ok());
}

#[test]
fn kzg_batch_verification() {
    let (prover_params, verifier_params) = setup_params(2);
    let params = &prover_params.commitment_params;
    let poly_a = vec![fe(1), fe(2), fe(3)];
    let poly_b = vec![fe(4), fe(0), fe(1), fe(9)];
    let c1 = KZGCommitment::commit(params, &poly_a).unwrap();
    let c2 = KZGCommitment::commit(params, &poly_b).unwrap();
    let (v1, w1) = KZGCommitment::open(params, &poly_a, fe(5)).unwrap();
    let (v2, w2) = KZGCommitment::open(params, &poly_b, fe(2)).unwrap();
    assert_eq!(v1, fe(86));
    assert_eq!(v2, fe(4 + 4 + 72));
    let vk = &verifier_params.commitment_vk;
    assert!(KZGCommitment::batch_verify(vk, &[c1, c2], &[fe(5), fe(2)], &[v1, v2], &[w1, w2]).unwrap());
    assert!(!KZGCommitment::batch_verify(vk, &[c1, c2], &[fe(5), fe(2)], &[v1, fe(81)], &[w1, w2]).unwrap());
    assert!(KZGCommitment::batch_verify(vk, &[], &[], &[], &[]).unwrap());
    let r = KZGCommitment::batch_verify(vk, &[c1], &[fe(5), fe(2)], &[v1], &[w1]);
    assert!(matches!(r, Err(TwistAndShoutError::Commitment(_))));
}

#[test]
fn vector_commitment_index_out_of_bounds() {
    let (prover_params, _) = setup_params(2);
    let r = KZGVectorCommitment::open(&prover_params.commitment_params, &[fe(1), fe(2)], 2);
    assert!(matches!(r, Err(TwistAndShoutError::Commitment(_))));
}

#[test]
fn transcript_is_deterministic() {
    let mut a = Transcript::new(&[1u8; 32]);
    let mut b = Transcript::new(&[1u8; 32]);
    a.append_field_element(b"x", &fe(7));
    b.append_field_element(b"x", &fe(7));
    assert_eq!(a.challenge_field_element(b"c"), b.challenge_field_element(b"c"));
    let mut c = Transcript::new(&[1u8; 32]);
    c.append_field_element(b"x", &fe(8));
    let mut d = Transcript::new(&[1u8; 32]);
    d.append_field_element(b"x", &fe(7));
    assert_ne!(c.challenge_field_element(b"c"), d.challenge_field_element(b"c"));
}

#[test]
fn transcript_batch_labels() {
    let mut a = Transcript::new(&[0u8; 32]);
    let batch = a.challenge_field_elements(b"open", 2);
    let mut b = Transcript::new(&[0u8; 32]);
    let first = b.challenge_field_element(b"open_0");
    let second = b.challenge_field_element(b"open_1");
    assert_eq!(batch, vec![first, second]);
    assert_ne!(first, second);

    let mut c = Transcript::new(&[0u8; 32]);
    let fallback = c.challenge_field_elements(&[0xff, 0xfe], 1);
    let mut d = Transcript::new(&[0u8; 32]);
    assert_eq!(fallback, vec![d.challenge_field_element(b"challenge_0")]);
}

#[test]
fn sumcheck_rejects_a_wrong_claim() {
    let x1 = MultilinearExtension::from_evaluations(vec![fe(0), fe(1), fe(0), fe(1)]);
    let x2 = MultilinearExtension::from_evaluations(vec![fe(0), fe(0), fe(1), fe(1)]);
    let f = MleProduct { factors: vec![x1, x2] };
    let wrong = SumCheck::new(2, fe(2));
    let r = wrong.prove(&f, &mut Transcript::new(&[42u8; 32]));
    assert!(matches!(r, Err(TwistAndShoutError::SumCheck(_))));

    let right = SumCheck::new(2, fe(1));
    let proof = right.prove(&f, &mut Transcript::new(&[42u8; 32])).unwrap();
    assert_eq!(proof.round_polynomials.len(), 2);
    let (ok, challenges) = right.verify(&proof, &mut Transcript::new(&[42u8; 32])).unwrap();
    assert!(ok);
    assert_eq!(challenges.len(), 2);
    assert_eq!(proof.final_evaluation, challenges[0].mul(&challenges[1]));
    let (bad, _) = wrong.verify(&proof, &mut Transcript::new(&[42u8; 32])).unwrap();
    assert!(!bad);
    let three = SumCheck::new(3, fe(1));
    let r = three.verify(&proof, &mut Transcript::new(&[42u8; 32]));
    assert!(matches!(r, Err(TwistAndShoutError::SumCheck(_))));
}

#[test]
fn memory_trace_scenario() {
    let mut trace = memory_scenario();
    assert_eq!(trace.operations.len(), 6);
    assert!(matches!(trace.write(8, fe(1)), Err(TwistAndShoutError::InvalidParameters(_))));
    assert!(matches!(trace.read(8), Err(TwistAndShoutError::InvalidParameters(_))));
    assert_eq!(trace.operations.len(), 6);
    assert_eq!(trace.operations[5], MemoryOp::Read { address: 0, value: fe(43) });
    assert_eq!(trace.read(7).unwrap(), fe(0));
}

#[test]
fn lookup_table_scenario() {
    let mut table = squares_table();
    assert!(matches!(table.lookup(8), Err(TwistAndShoutError::InvalidParameters(_))));
    assert_eq!(table.lookups.len(), 4);
    let mut empty = LookupTable::new(vec![]);
    assert!(empty.lookup(0).is_err());
}

#[test]
fn twist_end_to_end() {
    let (prover_params, verifier_params) = setup_params(3);
    let trace = memory_scenario();
    let twist = Twist::new(&prover_params);
    let proof = twist.prove(&trace).unwrap();
    assert_eq!(proof.consistency_proof.round_polynomials.len(), 3);
    assert_eq!(proof.final_evaluations.len(), 2);
    assert!(matches!(twist.verify(&proof, &verifier_params), Ok(true)));
}

#[test]
fn shout_end_to_end() {
    let (prover_params, verifier_params) = setup_params(3);
    let table = squares_table();
    let shout = Shout::new(&prover_params);
    let proof = shout.prove(&table).unwrap();
    assert_eq!(proof.lookup_proof.round_polynomials.len(), 2);
    assert!(matches!(shout.verify(&proof, &verifier_params), Ok(true)));
}

#[test]
fn twist_empty_trace_has_no_rounds() {
    let (prover_params, verifier_params) = setup_params(1);
    let trace = MemoryTrace::new(2);
    let twist = Twist::new(&prover_params);
    let proof = twist.prove(&trace).unwrap();
    assert!(proof.consistency_proof.round_polynomials.is_empty());
    assert!(proof.opening_proofs.is_empty());
    assert!(twist.verify(&proof, &verifier_params).unwrap());
}

#[test]
fn tampered_opening_is_rejected() {
    let (prover_params, verifier_params) = setup_params(3);
    let trace = memory_scenario();
    let twist = Twist::new(&prover_params);
    let mut proof = twist.prove(&trace).unwrap();
    proof.final_evaluations[1] = proof.final_evaluations[1].add(&fe(1));
    assert!(!twist.verify(&proof, &verifier_params).unwrap());
}

#[test]
fn parameter_compatibility() {
    for n in 0..4 {
        let (p, v) = setup_params(n);
        assert_eq!(p.log_size, n);
        assert_eq!(v.log_size, n);
        assert_eq!(p.max_operations, 1 << (n + 2));
        assert_eq!(p.max_operations, v.max_operations);
        assert_eq!(p.fiat_shamir_seed, v.fiat_shamir_seed);
        assert_eq!(p.commitment_params.g1_powers.len(), p.max_operations + 1);
    }
}

#[test]
fn operation_cap_enforcement() {
    let (prover_params, _) = setup_params(1);
    let mut trace = MemoryTrace::new(2);
    for i in 0..9 {
        trace.write(i % 2, fe(i as u64)).unwrap();
    }
    let twist = Twist::new(&prover_params);
    assert!(matches!(twist.prove(&trace), Err(TwistAndShoutError::InvalidParameters(_))));

    let mut table = LookupTable::new(vec![fe(1), fe(2)]);
    for _ in 0..8 {
        table.lookup(1).unwrap();
    }
    let shout = Shout::new(&prover_params);
    assert!(shout.prove(&table).is_ok());
    table.lookup(0).unwrap();
    assert!(matches!(shout.prove(&table), Err(TwistAndShoutError::InvalidParameters(_))));
}

#[test]
fn shout_table_too_large_for_setup() {
    let (prover_params, _) = setup_params(0);
    let table = LookupTable::new(vec![fe(1); 5]);
    let shout = Shout::new(&prover_params);
    assert!(matches!(shout.prove(&table), Err(TwistAndShoutError::Commitment(_))));
}

#[test]
fn next_power_of_two_values() {
    assert_eq!(next_power_of_two(0), 1);
    assert_eq!(next_power_of_two(1), 1);
    assert_eq!(next_power_of_two(5), 8);
    assert_eq!(next_power_of_two(8), 8);
}

#[test]
fn benchmark_helpers() {
    assert_eq!(benchmark_setup(3), (32, 32));
    let r = BenchmarkResults {
        setup_time: 1,
        prove_time: 20,
        verify_time: 300,
        proof_size: 0,
        num_operations: 0,
        memory_usage: 0,
    };
    assert_eq!(r.total_time(), 321);
}

#[test]
fn benchmark_single_runs() {
    let twist = ProtocolBenchmarks::benchmark_twist_single(2, 5).unwrap();
    assert_eq!(twist.num_operations, 5);
    assert_eq!(twist.memory_usage, 4 * 32 + 5 * 96);
    let (t, s) = ProtocolBenchmarks::comparative_benchmark(2, 3).unwrap();
    assert_eq!(t.num_operations, 3);
    assert_eq!(s.num_operations, 3);
}

#[test]
fn commitment_traits_delegate() {
    let (prover_params, verifier_params) = setup_params(2);
    let params = &prover_params.commitment_params;
    let poly = vec![fe(1), fe(2), fe(3)];
    let c = <KZGCommitment as CommitmentScheme>::commit(params, &poly).unwrap();
    let (v, w) = <KZGCommitment as CommitmentScheme>::open(params, &poly, fe(5)).unwrap();
    assert_eq!(v, fe(86));
    let vk = &verifier_params.commitment_vk;
    assert!(<KZGCommitment as CommitmentScheme>::verify(vk, &c, fe(5), v, &w).unwrap());
    assert!(<KZGCommitment as CommitmentScheme>::batch_verify(vk, &[c], &[fe(5)], &[v], &[w]).unwrap());

    let vector = vec![fe(7), fe(8), fe(9)];
    let vc = <KZGVectorCommitment as VectorCommitmentScheme>::commit(params, &vector).unwrap();
    let (e, p) = <KZGVectorCommitment as VectorCommitmentScheme>::open(params, &vector, 1).unwrap();
    assert_eq!(e, fe(8));
    assert!(<KZGVectorCommitment as VectorCommitmentScheme>::verify(vk, &vc, 1, e, &p).unwrap());
}

#[test]
fn setup_seed_changes_the_reference_string() {
    let (a, _) = setup_params_with_seed(1, [42u8; 32]);
    let (b, _) = setup_params(1);
    let (c, _) = setup_params_with_seed(1, [7u8; 32]);
    assert_eq!(a.fiat_shamir_seed, b.fiat_shamir_seed);
    assert_ne!(a.fiat_shamir_seed, c.fiat_shamir_seed);
    assert_eq!(a.commitment_params.tau, b.commitment_params.tau);
    assert_ne!(a.commitment_params.tau, c.commitment_params.tau);
}

#[test]
fn round_polynomials_follow_the_degree() {
    let x1 = MultilinearExtension::from_evaluations(vec![fe(0), fe(1), fe(0), fe(1)]);
    let x2 = MultilinearExtension::from_evaluations(vec![fe(0), fe(0), fe(1), fe(1)]);
    let g = MultilinearExtension::from_evaluations(vec![fe(2), fe(3), fe(5), fe(7)]);
    // x1 * x2 * g sums to 1 * 1 * 7 over the square
    let f = MleProduct { factors: vec![x1.clone(), x2.clone(), g] };
    let sc = SumCheck::new(2, fe(7));
    let proof = sc.prove(&f, &mut Transcript::new(&[1u8; 32])).unwrap();
    assert!(proof.round_polynomials.iter().all(|r| r.len() == 4));
    let (ok, _) = sc.verify(&proof, &mut Transcript::new(&[1u8; 32])).unwrap();
    assert!(ok);

    let pair = MleProduct { factors: vec![x1, x2] };
    let proof = SumCheck::new(2, fe(1)).prove(&pair, &mut Transcript::new(&[1u8; 32])).unwrap();
    assert!(proof.round_polynomials.iter().all(|r| r.len() == 3));
}

#[test]
fn twist_rounds_of_the_zero_constraint_are_constant() {
    let (prover_params, _) = setup_params(3);
    let trace = memory_scenario();
    let proof = Twist::new(&prover_params).prove(&trace).unwrap();
    assert!(proof.consistency_proof.round_polynomials.iter().all(|r| r == &vec![fe(0)]));
}

#[test]
fn interpolant_passes_through_the_vector() {
    let (prover_params, verifier_params) = setup_params(2);
    let vector = vec![fe(5), fe(1), fe(4), fe(1), fe(3)];
    let c = KZGVectorCommitment::commit(&prover_params.commitment_params, &vector).unwrap();
    for i in 0..vector.len() {
        let (v, p) = KZGVectorCommitment::open(&prover_params.commitment_params, &vector, i).unwrap();
        assert_eq!(v, vector[i]);
        assert!(KZGVectorCommitment::verify(&verifier_params.commitment_vk, &c, i, v, &p).unwrap());
    }
}

#[test]
fn challenge_is_sha256_seeded() {
    let mut t = Transcript::new(&[9u8; 32]);
    t.append_field_element(b"x", &fe(5));
    let c = t.challenge_field_element(b"c");

    let mut state = b"x".to_vec();
    state.extend_from_slice(&fe(5).to_bytes());
    state.extend_from_slice(b"c");
    let digest = <sha2::Sha256 as sha2::Digest>::digest(&state);
    let seed: [u8; 32] = digest.as_slice().try_into().unwrap();
    let mut rng = <rand_chacha::ChaCha20Rng as ark_std::rand::SeedableRng>::from_seed(seed);
    let f = <ark_bn254::Fr as ark_std::UniformRand>::rand(&mut rng);
    let expected = FieldElement::from_limbs(ark_ff::PrimeField::into_bigint(f).0);
    assert_eq!(c, expected);
}

#[test]
fn equal_log_sizes_give_equal_parameters() {
    let (p1, v1) = setup_params(2);
    let (p2, v2) = setup_params(2);
    assert_eq!(p1.commitment_params.tau, p2.commitment_params.tau);
    assert_eq!(p1.fiat_shamir_seed, p2.fiat_shamir_seed);
    assert_eq!(p1.commitment_params.g1_powers, p2.commitment_params.g1_powers);
    assert_eq!(v1.commitment_vk.g2_tau, v2.commitment_vk.g2_tau);
}
