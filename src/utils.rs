//! Protocol parameters, the Fiat-Shamir transcript, and field utilities.

pub mod field_utils;

use crate::field::{element_bytes, FieldElement};
use crate::polynomials::vals;
use crate::group::{
    g1_generator, g1_mul_of, g1_scale, g2_generator, g2_mul_of, g2_scale, G1Element, G2Element,
};
use crate::utils::field_utils::fpow;
use crate::polynomials::two_to;
use vstd::prelude::*;
use vstd::string::StringSliceAdditionalSpecFns;

verus! {

/// The SHA-256 digest of a byte string.
pub uninterp spec fn sha256_of(bytes: Seq<u8>) -> Seq<u8>;

/// The field element that a ChaCha20 generator seeded with `seed` draws first.
pub uninterp spec fn seeded_element(seed: Seq<u8>) -> int;

/// The 32 bytes that a ChaCha20 generator seeded with `seed` gives right
/// after its first field element.
pub uninterp spec fn seed_after_element(seed: Seq<u8>) -> Seq<u8>;

/// Relies on sha2's `Sha256::digest`: the SHA-256 digest, 32 bytes.
#[verifier::external_body]
fn hash_state(state: &Vec<u8>) -> (r: Vec<u8>)
    ensures
        r@ == sha256_of(state@),
        r@.len() == 32,
{
    <sha2::Sha256 as sha2::Digest>::digest(state.as_slice()).to_vec()
}

/// Relies on rand_chacha's `ChaCha20Rng::from_seed` and ark_std's
/// `UniformRand` for `Fr`: the first element drawn is a function of the seed.
#[verifier::external_body]
fn element_from_seed(seed: &[u8]) -> (r: FieldElement)
    requires
        seed.len() == 32,
    ensures
        r.val() == seeded_element(seed@),
{
    let seed: [u8; 32] = seed.try_into().unwrap();
    let mut rng = <rand_chacha::ChaCha20Rng as ark_std::rand::SeedableRng>::from_seed(seed);
    let f = <ark_bn254::Fr as ark_std::UniformRand>::rand(&mut rng);
    FieldElement::from_limbs(ark_ff::PrimeField::into_bigint(f).0)
}

/// Relies on rand_chacha's `ChaCha20Rng::from_seed`, ark_std's `UniformRand`
/// for `Fr` and rand_core's `RngCore::fill_bytes`: a generator seeded with
/// `seed` draws a field element, then 32 bytes; both depend on the seed alone.
#[verifier::external_body]
fn setup_draws(seed: [u8; 32]) -> (r: (FieldElement, [u8; 32]))
    ensures
        r.0.val() == seeded_element(seed@),
        r.1@ == seed_after_element(seed@),
{
    let mut rng = <rand_chacha::ChaCha20Rng as ark_std::rand::SeedableRng>::from_seed(seed);
    let f = <ark_bn254::Fr as ark_std::UniformRand>::rand(&mut rng);
    let mut bytes = [0u8; 32];
    ark_std::rand::RngCore::fill_bytes(&mut rng, &mut bytes);
    (FieldElement::from_limbs(ark_ff::PrimeField::into_bigint(f).0), bytes)
}

/// Relies on std's `str::from_utf8`, which accepts exactly the valid UTF-8 byte strings.
#[verifier::external_body]
fn is_utf8(bytes: &[u8]) -> (r: bool)
    ensures
        r == vstd::utf8::valid_utf8(bytes@),
{
    std::str::from_utf8(bytes).is_ok()
}

/// Parameters for the prover.
#[derive(Debug, Clone)]
pub struct ProverParams {
    /// The memory has `2^log_size` cells.
    pub log_size: usize,
    /// The most operations a trace may hold.
    pub max_operations: usize,
    pub commitment_params: CommitmentParams,
    pub fiat_shamir_seed: [u8; 32],
}

/// Parameters for the verifier.
#[derive(Debug, Clone)]
pub struct VerifierParams {
    pub log_size: usize,
    pub max_operations: usize,
    pub commitment_vk: CommitmentVerificationKey,
    pub fiat_shamir_seed: [u8; 32],
}

/// The prover's half of the structured reference string:
/// `g1_powers[i] = [tau^i]_1`.
#[derive(Debug, Clone)]
pub struct CommitmentParams {
    pub g1_powers: Vec<G1Element>,
    pub g2_generator: G2Element,
    /// The secret of the setup, kept for testing only.
    pub tau: Option<FieldElement>,
}

/// The verifier's half of the structured reference string.
#[derive(Debug, Clone)]
pub struct CommitmentVerificationKey {
    pub g1_generator: G1Element,
    pub g2_generator: G2Element,
    /// `[tau]_2`.
    pub g2_tau: G2Element,
}

impl CommitmentParams {
    /// A copy that keeps every power.
    pub fn duplicate(&self) -> (r: CommitmentParams)
        ensures
            r.g1_powers@ == self.g1_powers@,
    {
        let mut g1_powers: Vec<G1Element> = Vec::new();
        let mut i: usize = 0;
        while i < self.g1_powers.len()
            invariant
                i <= self.g1_powers.len(),
                g1_powers@ == self.g1_powers@.take(i as int),
            decreases self.g1_powers.len() - i,
        {
            g1_powers.push(self.g1_powers[i]);
            i = i + 1;
            proof {
                assert(g1_powers@ =~= self.g1_powers@.take(i as int));
            }
        }
        proof {
            assert(self.g1_powers@.take(self.g1_powers.len() as int) =~= self.g1_powers@);
        }
        CommitmentParams { g1_powers, g2_generator: self.g2_generator, tau: self.tau }
    }
}

impl ProverParams {
    /// A copy that keeps every field.
    pub fn duplicate(&self) -> (r: ProverParams)
        ensures
            r.log_size == self.log_size,
            r.max_operations == self.max_operations,
            r.fiat_shamir_seed == self.fiat_shamir_seed,
            r.commitment_params.g1_powers@ == self.commitment_params.g1_powers@,
    {
        ProverParams {
            log_size: self.log_size,
            max_operations: self.max_operations,
            commitment_params: self.commitment_params.duplicate(),
            fiat_shamir_seed: self.fiat_shamir_seed,
        }
    }
}

/// `log2(n)` for a power of two `n`.
pub fn exact_log2(n: usize) -> (r: usize)
    requires
        exists|k: nat| n == two_to(k),
    ensures
        two_to(r as nat) == n,
{
    let ghost k = choose|k: nat| n == two_to(k);
    let mut r: usize = 0;
    let mut size: usize = 1;
    proof {
        assert(two_to(0) == 1);
        crate::polynomials::lemma_two_to_pos(k);
    }
    while size < n
        invariant
            size == two_to(r as nat),
            1 <= size <= n,
            n == two_to(k),
            r < size,
        decreases n - size,
    {
        proof {
            if k <= r {
                crate::polynomials::lemma_two_to_mono(k, r as nat);
            }
            crate::polynomials::lemma_two_to_mono((r + 1) as nat, k);
            crate::polynomials::lemma_two_to_gt((r + 1) as nat);
        }
        size = size * 2;
        r = r + 1;
    }
    r
}

/// The smallest power of two that is at least `n` (one for zero).
pub fn next_power_of_two(n: usize) -> (r: usize)
    requires
        2 * n <= usize::MAX,
    ensures
        exists|k: nat| r == two_to(k),
        r >= n,
        r >= 1,
        r == 1 || r / 2 < n,
{
    let mut r: usize = 1;
    let ghost mut k: nat = 0;
    proof {
        assert(two_to(0) == 1);
    }
    while r < n
        invariant
            r == two_to(k),
            1 <= r,
            r == 1 || r / 2 < n,
            2 * n <= usize::MAX,
        decreases 2 * n - r,
    {
        proof {
            assert(two_to(k + 1) == 2 * two_to(k));
        }
        r = r * 2;
        proof {
            k = k + 1;
        }
    }
    r
}

/// `setup_params_with_seed` with the generator seeded by 32 bytes of 42.
pub fn setup_params(log_size: usize) -> (r: (ProverParams, VerifierParams))
    requires
        two_to((log_size + 3) as nat) <= usize::MAX,
    ensures
        r.0.log_size == log_size,
        r.1.log_size == log_size,
        r.0.max_operations == two_to((log_size + 2) as nat),
        r.1.max_operations == r.0.max_operations,
        r.0.fiat_shamir_seed == r.1.fiat_shamir_seed,
        r.0.commitment_params.g1_powers.len() == r.0.max_operations + 1,
        r.0.commitment_params.tau is Some,
        forall|i: int|
            0 <= i < r.0.commitment_params.g1_powers.len() ==> #[trigger] r.0.commitment_params.g1_powers[i]
                == g1_mul_of(
                r.1.commitment_vk.g1_generator,
                fpow(r.0.commitment_params.tau->Some_0.val(), i as nat),
            ),
        r.1.commitment_vk.g2_tau == g2_mul_of(
            r.1.commitment_vk.g2_generator,
            r.0.commitment_params.tau->Some_0.val(),
        ),
        r.0.commitment_params.g2_generator == r.1.commitment_vk.g2_generator,
        r.0.commitment_params.tau->Some_0.val() == seeded_element(default_setup_seed()),
        r.0.fiat_shamir_seed@ == seed_after_element(default_setup_seed()),
{
    let seed = [42u8; 32];
    proof {
        assert(seed@ =~= default_setup_seed());
    }
    setup_params_with_seed(log_size, seed)
}

/// The default setup seed: 32 bytes of 42.
pub open spec fn default_setup_seed() -> Seq<u8> {
    Seq::new(32, |i: int| 42u8)
}

/// A structured reference string and Fiat-Shamir seed for memories of
/// `2^log_size` cells and up to `2^(log_size + 2)` operations, drawn from a
/// generator seeded with `setup_seed` (insecure, for testing: the secret is
/// kept). Both halves agree on every shared field.
pub fn setup_params_with_seed(log_size: usize, setup_seed: [u8; 32]) -> (r: (ProverParams, VerifierParams))
    requires
        two_to((log_size + 3) as nat) <= usize::MAX,
    ensures
        r.0.log_size == log_size,
        r.1.log_size == log_size,
        r.0.max_operations == two_to((log_size + 2) as nat),
        r.1.max_operations == r.0.max_operations,
        r.0.fiat_shamir_seed == r.1.fiat_shamir_seed,
        r.0.commitment_params.g1_powers.len() == r.0.max_operations + 1,
        r.0.commitment_params.tau is Some,
        forall|i: int|
            0 <= i < r.0.commitment_params.g1_powers.len() ==> #[trigger] r.0.commitment_params.g1_powers[i]
                == g1_mul_of(
                r.1.commitment_vk.g1_generator,
                fpow(r.0.commitment_params.tau->Some_0.val(), i as nat),
            ),
        r.1.commitment_vk.g2_tau == g2_mul_of(
            r.1.commitment_vk.g2_generator,
            r.0.commitment_params.tau->Some_0.val(),
        ),
        r.0.commitment_params.g2_generator == r.1.commitment_vk.g2_generator,
        r.0.commitment_params.tau->Some_0.val() == seeded_element(setup_seed@),
        r.0.fiat_shamir_seed@ == seed_after_element(setup_seed@),
{
    proof {
        crate::polynomials::lemma_two_to_mono((log_size + 2) as nat, (log_size + 3) as nat);
        crate::polynomials::lemma_two_to_gt((log_size + 3) as nat);
        assert(two_to((log_size + 3) as nat) == 2 * two_to((log_size + 2) as nat));
    }
    let max_operations = crate::polynomials::two_to_usize(log_size + 2);
    let (tau, seed) = setup_draws(setup_seed);
    let g1_gen = g1_generator();
    let g2_gen = g2_generator();
    let max_degree = next_power_of_two(max_operations);
    proof {
        if max_degree > max_operations {
            let k = choose|k: nat| max_degree == two_to(k);
            if k == 0 {
            } else {
                assert(two_to(k) == 2 * two_to((k - 1) as nat));
                if (k - 1) as nat >= (log_size + 2) as nat {
                    crate::polynomials::lemma_two_to_mono((log_size + 2) as nat, (k - 1) as nat);
                } else {
                    crate::polynomials::lemma_two_to_mono(k, (log_size + 2) as nat);
                }
            }
        }
    }
    let mut g1_powers: Vec<G1Element> = Vec::new();
    let mut current_tau_power = FieldElement::one();
    let mut i: usize = 0;
    while i <= max_degree
        invariant
            max_degree == max_operations,
            2 * max_operations <= usize::MAX,
            g1_powers.len() == i,
            i <= max_degree + 1,
            current_tau_power.val() == fpow(tau.val(), i as nat),
            forall|k: int| 0 <= k < i ==> #[trigger] g1_powers[k] == g1_mul_of(g1_gen, fpow(tau.val(), k as nat)),
        decreases max_degree + 1 - i,
    {
        g1_powers.push(g1_scale(&g1_gen, &current_tau_power));
        current_tau_power = current_tau_power.mul(&tau);
        i = i + 1;
    }
    let g2_tau = g2_scale(&g2_gen, &tau);
    let commitment_params = CommitmentParams { g1_powers, g2_generator: g2_gen, tau: Some(tau) };
    let commitment_vk = CommitmentVerificationKey {
        g1_generator: g1_gen,
        g2_generator: g2_gen,
        g2_tau,
    };
    let prover_params = ProverParams {
        log_size,
        max_operations,
        commitment_params,
        fiat_shamir_seed: seed,
    };
    let verifier_params = VerifierParams {
        log_size,
        max_operations,
        commitment_vk,
        fiat_shamir_seed: seed,
    };
    (prover_params, verifier_params)
}

/// The challenge drawn from a transcript whose state is `state`: the first
/// field element of a generator seeded with the state's SHA-256 digest.
pub open spec fn challenge_value(state: Seq<u8>) -> int {
    seeded_element(sha256_of(state))
}

/// The encodings of a sequence of residues, one after the other.
pub open spec fn encode_vals(s: Seq<int>) -> Seq<u8>
    decreases s.len(),
{
    if s.len() == 0 {
        Seq::empty()
    } else {
        encode_vals(s.drop_last()) + element_bytes(s.last())
    }
}

/// The decimal digits of `n`, in ASCII.
pub open spec fn decimal(n: nat) -> Seq<u8>
    decreases n,
{
    if n < 10 {
        seq![(48 + n) as u8]
    } else {
        decimal(n / 10).push((48 + n % 10) as u8)
    }
}

/// The ASCII bytes of `challenge`.
pub open spec fn fallback_label() -> Seq<u8> {
    seq![99u8, 104u8, 97u8, 108u8, 108u8, 101u8, 110u8, 103u8, 101u8]
}

/// The label of the `i`-th challenge of a batch: the batch label (or
/// `challenge` where it is not UTF-8), an underscore, and `i` in decimal.
pub open spec fn indexed_label(label: Seq<u8>, i: nat) -> Seq<u8> {
    (if vstd::utf8::valid_utf8(label) {
        label
    } else {
        fallback_label()
    }) + seq![95u8] + decimal(i)
}

/// The state after the first `k` challenges of a batch.
pub open spec fn batch_state(start: Seq<u8>, label: Seq<u8>, k: nat) -> Seq<u8>
    decreases k,
{
    if k == 0 {
        start
    } else {
        batch_state(start, label, (k - 1) as nat) + indexed_label(label, (k - 1) as nat)
    }
}

/// Appends the decimal digits of `n`.
pub fn push_decimal(out: &mut Vec<u8>, n: usize)
    ensures
        final(out)@ == old(out)@ + decimal(n as nat),
    decreases n,
{
    if n >= 10 {
        push_decimal(out, n / 10);
    }
    out.push((48 + n % 10) as u8);
    proof {
        assert(final(out)@ =~= old(out)@ + decimal(n as nat));
    }
}

/// `prefix` followed by `i` in decimal.
pub fn label_with_index(prefix: &str, i: usize) -> (r: Vec<u8>)
    ensures
        r@ == prefix.spec_bytes() + decimal(i as nat),
{
    let mut out: Vec<u8> = Vec::new();
    extend_bytes(&mut out, prefix.as_bytes());
    push_decimal(&mut out, i);
    out
}

/// Appends `bytes`.
pub fn extend_bytes(out: &mut Vec<u8>, bytes: &[u8])
    ensures
        final(out)@ == old(out)@ + bytes@,
{
    let ghost start = out@;
    let mut i: usize = 0;
    while i < bytes.len()
        invariant
            i <= bytes.len(),
            out@ == start + bytes@.take(i as int),
        decreases bytes.len() - i,
    {
        out.push(bytes[i]);
        i = i + 1;
        proof {
            assert(out@ =~= start + bytes@.take(i as int));
        }
    }
    proof {
        assert(bytes@.take(bytes.len() as int) =~= bytes@);
    }
}

/// A Fiat-Shamir transcript: an append-only byte state from which each
/// challenge is drawn by a generator reseeded from a hash of the whole state.
pub struct Transcript {
    seed: [u8; 32],
    state: Vec<u8>,
}

impl Transcript {
    /// The bytes absorbed so far.
    pub closed spec fn state(&self) -> Seq<u8> {
        self.state@
    }

    /// A transcript with nothing absorbed. The seed is kept with it; every
    /// challenge is drawn from a generator reseeded from the state.
    pub fn new(seed: &[u8; 32]) -> (r: Transcript)
        ensures
            r.state() == Seq::<u8>::empty(),
    {
        Transcript { seed: *seed, state: Vec::new() }
    }

    /// Absorbs `label` and the encoding of `element`.
    pub fn append_field_element(&mut self, label: &[u8], element: &FieldElement)
        ensures
            final(self).state() == old(self).state() + label@ + element_bytes(element.val()),
    {
        extend_bytes(&mut self.state, label);
        let bytes = element.to_bytes();
        extend_bytes(&mut self.state, bytes.as_slice());
    }

    /// Absorbs `label` and the encodings of `elements`, in order.
    pub fn append_field_elements(&mut self, label: &[u8], elements: &[FieldElement])
        ensures
            final(self).state() == old(self).state() + label@ + encode_vals(vals(elements@)),
    {
        extend_bytes(&mut self.state, label);
        let ghost start = self.state@;
        let mut i: usize = 0;
        proof {
            assert(elements@.take(0) =~= Seq::<FieldElement>::empty());
            assert(vals(elements@.take(0)) =~= Seq::<int>::empty());
            assert(start + encode_vals(Seq::<int>::empty()) =~= start);
        }
        while i < elements.len()
            invariant
                i <= elements.len(),
                self.state@ == start + encode_vals(vals(elements@.take(i as int))),
            decreases elements.len() - i,
        {
            let bytes = elements[i].to_bytes();
            extend_bytes(&mut self.state, bytes.as_slice());
            proof {
                let t = vals(elements@.take(i + 1));
                assert(t.drop_last() =~= vals(elements@.take(i as int)));
                assert(t.last() == elements[i as int].val());
            }
            i = i + 1;
        }
        proof {
            assert(elements@.take(elements.len() as int) =~= elements@);
        }
    }

    /// Absorbs `label`, then draws a challenge from the whole state.
    pub fn challenge_field_element(&mut self, label: &[u8]) -> (r: FieldElement)
        ensures
            final(self).state() == old(self).state() + label@,
            r.val() == challenge_value(final(self).state()),
    {
        extend_bytes(&mut self.state, label);
        let digest = hash_state(&self.state);
        element_from_seed(digest.as_slice())
    }

    /// Draws `count` challenges, the `i`-th under the label `label_i`.
    pub fn challenge_field_elements(&mut self, label: &[u8], count: usize) -> (r: Vec<
        FieldElement,
    >)
        ensures
            r.len() == count,
            final(self).state() == batch_state(old(self).state(), label@, count as nat),
            forall|i: int|
                0 <= i < count ==> #[trigger] r[i].val() == challenge_value(
                    batch_state(old(self).state(), label@, (i + 1) as nat),
                ),
    {
        let ghost start = self.state@;
        let utf8 = is_utf8(label);
        let mut challenges: Vec<FieldElement> = Vec::new();
        let mut i: usize = 0;
        while i < count
            invariant
                i <= count,
                utf8 == vstd::utf8::valid_utf8(label@),
                challenges.len() == i,
                self.state@ == batch_state(start, label@, i as nat),
                forall|k: int|
                    0 <= k < i ==> #[trigger] challenges[k].val() == challenge_value(
                        batch_state(start, label@, (k + 1) as nat),
                    ),
            decreases count - i,
        {
            let mut indexed: Vec<u8> = Vec::new();
            if utf8 {
                extend_bytes(&mut indexed, label);
            } else {
                let fallback: Vec<u8> = vec![99u8, 104u8, 97u8, 108u8, 108u8, 101u8, 110u8, 103u8, 101u8];
                extend_bytes(&mut indexed, fallback.as_slice());
                proof {
                    assert(fallback@ =~= fallback_label());
                }
            }
            indexed.push(95u8);
            push_decimal(&mut indexed, i);
            proof {
                assert(indexed@ =~= indexed_label(label@, i as nat));
            }
            let c = self.challenge_field_element(indexed.as_slice());
            challenges.push(c);
            i = i + 1;
        }
        challenges
    }
}

} // verus!
