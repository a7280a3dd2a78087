//! Multilinear extensions over the Boolean hypercube, and the less-than
//! comparator gadget.

pub mod poly_utils;

use crate::field::{
    fadd, fmul, fsub, lemma_fadd_reduce, lemma_field_range, lemma_fmul_comm, lemma_fmul_distrib,
    lemma_reduced, modulus, canon, FieldElement,
};
use vstd::arithmetic::div_mod::lemma_div_denominator;
use vstd::prelude::*;

verus! {

/// `2^n`.
pub open spec fn two_to(n: nat) -> nat
    decreases n,
{
    if n == 0 {
        1
    } else {
        2 * two_to((n - 1) as nat)
    }
}

/// Bit `k` of `x`.
pub open spec fn bit(x: nat, k: nat) -> bool {
    (x / two_to(k)) % 2 == 1
}

/// The residues of a sequence of field elements.
pub open spec fn vals(s: Seq<FieldElement>) -> Seq<int> {
    s.map_values(|e: FieldElement| e.val())
}

/// The Boolean point whose coordinate `t` is bit `t` of `x`, for `t < m`.
pub open spec fn bool_point(x: nat, m: nat) -> Seq<int> {
    Seq::new(m, |t: int| if bit(x, t as nat) { 1int } else { 0int })
}

/// The one-variable basis factor: `r` where the bit is one, `1 - r` where it is zero.
pub open spec fn basis_factor(r: int, b: bool) -> int {
    if b {
        r
    } else {
        fsub(1, r)
    }
}

/// `prod_{j < k} basis_factor(point[j], bit(x, j))`: the Lagrange basis
/// polynomial of the hypercube vertex `x`, over its first `k` coordinates.
pub open spec fn basis(point: Seq<int>, x: nat, k: nat) -> int
    decreases k,
{
    if k == 0 {
        1
    } else {
        fmul(basis(point, x, (k - 1) as nat), basis_factor(point[k - 1], bit(x, (k - 1) as nat)))
    }
}

/// `sum_{x < k} evals[x] * basis(point, x)`.
pub open spec fn mle_sum(evals: Seq<int>, point: Seq<int>, k: nat) -> int
    decreases k,
{
    if k == 0 {
        0
    } else {
        fadd(
            mle_sum(evals, point, (k - 1) as nat),
            fmul(evals[k - 1], basis(point, (k - 1) as nat, point.len())),
        )
    }
}

/// The value at `point` of the multilinear extension of `evals`.
pub open spec fn mle_eval(evals: Seq<int>, point: Seq<int>) -> int {
    mle_sum(evals, point, evals.len())
}

/// `sum_{i < k} s[i]` in the field.
pub open spec fn fsum(s: Seq<int>, k: nat) -> int
    decreases k,
{
    if k == 0 {
        0
    } else {
        fadd(fsum(s, (k - 1) as nat), s[k - 1])
    }
}

pub proof fn lemma_two_to_pos(n: nat)
    ensures
        two_to(n) >= 1,
    decreases n,
{
    if n > 0 {
        lemma_two_to_pos((n - 1) as nat);
    }
}

pub proof fn lemma_two_to_mono(a: nat, b: nat)
    requires
        a <= b,
    ensures
        two_to(a) <= two_to(b),
    decreases b,
{
    if a < b {
        lemma_two_to_mono(a, (b - 1) as nat);
    }
}

pub proof fn lemma_two_to_gt(n: nat)
    ensures
        two_to(n) > n,
    decreases n,
{
    if n > 0 {
        lemma_two_to_gt((n - 1) as nat);
    }
}

/// Halving an index shifts its bits down by one.
proof fn lemma_bit_shift(x: nat, k: nat)
    ensures
        x / two_to(k + 1) == (x / two_to(k)) / 2,
        two_to(k + 1) == two_to(k) * 2,
{
    lemma_two_to_pos(k);
    lemma_div_denominator(x as int, two_to(k) as int, 2);
}

/// `2^n` as a machine integer.
pub fn two_to_usize(n: usize) -> (r: usize)
    requires
        two_to(n as nat) <= usize::MAX,
    ensures
        r == two_to(n as nat),
{
    let mut r: usize = 1;
    let mut i: usize = 0;
    while i < n
        invariant
            i <= n,
            r == two_to(i as nat),
            two_to(n as nat) <= usize::MAX,
        decreases n - i,
    {
        proof {
            lemma_two_to_mono((i + 1) as nat, n as nat);
        }
        r = r * 2;
        i = i + 1;
    }
    r
}

/// A multilinear polynomial in `num_vars` variables, given by its values on
/// the hypercube: entry `x` is the value at the point whose coordinate `j`
/// is bit `j` of `x`.
#[derive(Debug, Clone)]
pub struct MultilinearExtension {
    pub num_vars: usize,
    pub evaluations: Vec<FieldElement>,
}

impl MultilinearExtension {
    /// The table has `2^num_vars` entries.
    pub open spec fn wf(&self) -> bool {
        self.evaluations.len() == two_to(self.num_vars as nat)
    }

    /// The residues of the table.
    pub open spec fn table(&self) -> Seq<int> {
        vals(self.evaluations@)
    }

    /// Builds the extension of a table whose length is a power of two.
    pub fn from_evaluations(evaluations: Vec<FieldElement>) -> (r: MultilinearExtension)
        requires
            exists|n: nat| two_to(n) == evaluations.len(),
        ensures
            r.wf(),
            r.evaluations@ == evaluations@,
    {
        let ghost m = choose|n: nat| two_to(n) == evaluations.len();
        proof {
            lemma_two_to_pos(m);
            assert(two_to(0) == 1);
        }
        let mut num_vars: usize = 0;
        let mut size: usize = 1;
        while size < evaluations.len()
            invariant
                size == two_to(num_vars as nat),
                1 <= size,
                num_vars < size,
                size <= evaluations.len(),
                two_to(m) == evaluations.len(),
            decreases evaluations.len() - size,
        {
            proof {
                if m <= num_vars {
                    lemma_two_to_mono(m, num_vars as nat);
                }
                lemma_two_to_mono((num_vars + 1) as nat, m);
                lemma_two_to_gt((num_vars + 1) as nat);
            }
            size = size * 2;
            num_vars = num_vars + 1;
        }
        MultilinearExtension { num_vars, evaluations }
    }

    /// Builds the extension in `num_vars` variables of a table of `2^num_vars` entries.
    pub fn from_evaluations_vec(num_vars: usize, evaluations: Vec<FieldElement>) -> (r:
        MultilinearExtension)
        requires
            evaluations.len() == two_to(num_vars as nat),
        ensures
            r.wf(),
            r.num_vars == num_vars,
            r.evaluations@ == evaluations@,
    {
        MultilinearExtension { num_vars, evaluations }
    }

    /// The table of `2^num_vars` zeros, with each listed `(index, value)`
    /// written over it in order.
    pub fn from_sparse(num_vars: usize, sparse_entries: &[(usize, FieldElement)]) -> (r:
        MultilinearExtension)
        requires
            two_to(num_vars as nat) <= usize::MAX,
            forall|k: int|
                0 <= k < sparse_entries.len() ==> #[trigger] sparse_entries[k].0 < two_to(
                    num_vars as nat,
                ),
        ensures
            r.wf(),
            r.num_vars == num_vars,
            forall|i: int|
                0 <= i < r.evaluations.len() ==> #[trigger] r.evaluations[i].val() == sparse_value(
                    sparse_entries@,
                    i,
                    sparse_entries.len() as nat,
                ),
    {
        let size = two_to_usize(num_vars);
        let mut evaluations = zeros(size);
        let mut k: usize = 0;
        while k < sparse_entries.len()
            invariant
                k <= sparse_entries.len(),
                evaluations.len() == size,
                size == two_to(num_vars as nat),
                forall|j: int|
                    0 <= j < sparse_entries.len() ==> #[trigger] sparse_entries[j].0 < size,
                forall|i: int|
                    0 <= i < size ==> #[trigger] evaluations[i].val() == sparse_value(
                        sparse_entries@,
                        i,
                        k as nat,
                    ),
            decreases sparse_entries.len() - k,
        {
            let (index, value) = sparse_entries[k];
            evaluations.set(index, value);
            k = k + 1;
        }
        MultilinearExtension { num_vars, evaluations }
    }

    /// The table that is one at `index` and zero elsewhere.
    pub fn one_hot(num_vars: usize, index: usize) -> (r: MultilinearExtension)
        requires
            two_to(num_vars as nat) <= usize::MAX,
            index < two_to(num_vars as nat),
        ensures
            r.wf(),
            r.num_vars == num_vars,
            forall|i: int|
                0 <= i < r.evaluations.len() ==> #[trigger] r.evaluations[i].val() == if i
                    == index {
                    1int
                } else {
                    0int
                },
    {
        let size = two_to_usize(num_vars);
        let mut evaluations = zeros(size);
        evaluations.set(index, FieldElement::one());
        MultilinearExtension { num_vars, evaluations }
    }

    /// The value at `point` of the basis polynomial of vertex `index`.
    fn evaluate_basis_polynomial(&self, index: usize, point: &[FieldElement]) -> (r: FieldElement)
        requires
            point.len() == self.num_vars,
        ensures
            r.val() == basis(vals(point@), index as nat, self.num_vars as nat),
    {
        let mut result = FieldElement::one();
        let mut rem: usize = index;
        proof {
            assert(two_to(0) == 1);
        }
        let mut j: usize = 0;
        while j < self.num_vars
            invariant
                j <= self.num_vars == point.len(),
                rem == index as nat / two_to(j as nat),
                result.val() == basis(vals(point@), index as nat, j as nat),
            decreases self.num_vars - j,
        {
            proof {
                lemma_bit_shift(index as nat, j as nat);
            }
            let contribution = if rem % 2 == 0 {
                FieldElement::one().sub(&point[j])
            } else {
                point[j]
            };
            result = result.mul(&contribution);
            rem = rem / 2;
            j = j + 1;
        }
        result
    }

    /// The value of the extension at `point`:
    /// `sum_x evals[x] * prod_j basis_factor(point[j], bit(x, j))`.
    pub fn evaluate(&self, point: &[FieldElement]) -> (r: FieldElement)
        requires
            self.wf(),
            point.len() == self.num_vars,
        ensures
            r.val() == mle_eval(self.table(), vals(point@)),
    {
        let mut acc = FieldElement::zero();
        let mut index: usize = 0;
        while index < self.evaluations.len()
            invariant
                self.wf(),
                point.len() == self.num_vars,
                index <= self.evaluations.len(),
                acc.val() == mle_sum(self.table(), vals(point@), index as nat),
            decreases self.evaluations.len() - index,
        {
            let eval = self.evaluations[index];
            let term = if eval.is_zero() {
                FieldElement::zero()
            } else {
                eval.mul(&self.evaluate_basis_polynomial(index, point))
            };
            proof {
                let b = basis(vals(point@), index as nat, vals(point@).len());
                assert(self.table()[index as int] == eval.val());
                assert(vals(point@).len() == self.num_vars);
                assert(term.val() == fmul(eval.val(), b)) by {
                    if eval.val() == 0 {
                        assert(eval.val() * b == 0);
                        lemma_reduced(0);
                    }
                }
            }
            acc = acc.add(&term);
            index = index + 1;
        }
        acc
    }

    /// Fixes the first `fixed_values.len()` variables; entry `j` of the
    /// result is the value at `fixed_values` followed by the bits of `j`.
    pub fn partial_evaluate(&self, fixed_values: &[FieldElement]) -> (r: MultilinearExtension)
        requires
            self.wf(),
            fixed_values.len() <= self.num_vars,
        ensures
            r.wf(),
            r.num_vars == self.num_vars - fixed_values.len(),
            forall|j: int|
                0 <= j < r.evaluations.len() ==> #[trigger] r.evaluations[j].val() == mle_eval(
                    self.table(),
                    vals(fixed_values@) + bool_point(j as nat, r.num_vars as nat),
                ),
    {
        let k = fixed_values.len();
        let new_num_vars = self.num_vars - k;
        proof {
            lemma_two_to_mono(new_num_vars as nat, self.num_vars as nat);
        }
        let new_size = two_to_usize(new_num_vars);
        let mut new_evaluations: Vec<FieldElement> = Vec::with_capacity(new_size);
        let mut new_index: usize = 0;
        while new_index < new_size
            invariant
                self.wf(),
                k == fixed_values.len() <= self.num_vars,
                new_num_vars == self.num_vars - k,
                new_size == two_to(new_num_vars as nat),
                new_index <= new_size,
                new_evaluations.len() == new_index,
                forall|j: int|
                    0 <= j < new_index ==> #[trigger] new_evaluations[j].val() == mle_eval(
                        self.table(),
                        vals(fixed_values@) + bool_point(j as nat, new_num_vars as nat),
                    ),
            decreases new_size - new_index,
        {
            let full_point = extend_with_bits(fixed_values, new_index, new_num_vars);
            new_evaluations.push(self.evaluate(&full_point));
            new_index = new_index + 1;
        }
        MultilinearExtension { num_vars: new_num_vars, evaluations: new_evaluations }
    }

    /// The entrywise sum of two extensions in the same variables.
    pub fn add(&self, other: &MultilinearExtension) -> (r: MultilinearExtension)
        requires
            self.wf(),
            other.wf(),
            self.num_vars == other.num_vars,
        ensures
            r.wf(),
            r.num_vars == self.num_vars,
            forall|i: int|
                0 <= i < r.evaluations.len() ==> #[trigger] r.evaluations[i].val() == fadd(
                    self.evaluations[i].val(),
                    other.evaluations[i].val(),
                ),
    {
        let mut evaluations: Vec<FieldElement> = Vec::with_capacity(self.evaluations.len());
        let mut i: usize = 0;
        while i < self.evaluations.len()
            invariant
                self.evaluations.len() == other.evaluations.len(),
                i <= self.evaluations.len(),
                evaluations.len() == i,
                forall|k: int|
                    0 <= k < i ==> #[trigger] evaluations[k].val() == fadd(
                        self.evaluations[k].val(),
                        other.evaluations[k].val(),
                    ),
            decreases self.evaluations.len() - i,
        {
            evaluations.push(self.evaluations[i].add(&other.evaluations[i]));
            i = i + 1;
        }
        MultilinearExtension { num_vars: self.num_vars, evaluations }
    }

    /// Every entry multiplied by `scalar`.
    pub fn scalar_mul(&self, scalar: FieldElement) -> (r: MultilinearExtension)
        requires
            self.wf(),
        ensures
            r.wf(),
            r.num_vars == self.num_vars,
            forall|i: int|
                0 <= i < r.evaluations.len() ==> #[trigger] r.evaluations[i].val() == fmul(
                    self.evaluations[i].val(),
                    scalar.val(),
                ),
    {
        let mut evaluations: Vec<FieldElement> = Vec::with_capacity(self.evaluations.len());
        let mut i: usize = 0;
        while i < self.evaluations.len()
            invariant
                i <= self.evaluations.len(),
                evaluations.len() == i,
                forall|k: int|
                    0 <= k < i ==> #[trigger] evaluations[k].val() == fmul(
                        self.evaluations[k].val(),
                        scalar.val(),
                    ),
            decreases self.evaluations.len() - i,
        {
            evaluations.push(self.evaluations[i].mul(&scalar));
            i = i + 1;
        }
        MultilinearExtension { num_vars: self.num_vars, evaluations }
    }

    /// The sum of all entries of the table.
    pub fn sum_evaluations(&self) -> (r: FieldElement)
        ensures
            r.val() == fsum(self.table(), self.evaluations.len() as nat),
    {
        let mut acc = FieldElement::zero();
        let mut i: usize = 0;
        while i < self.evaluations.len()
            invariant
                i <= self.evaluations.len(),
                acc.val() == fsum(self.table(), i as nat),
            decreases self.evaluations.len() - i,
        {
            acc = acc.add(&self.evaluations[i]);
            i = i + 1;
        }
        acc
    }
}

/// The value that the writes among the first `k` sparse entries leave at `i`.
pub open spec fn sparse_value(entries: Seq<(usize, FieldElement)>, i: int, k: nat) -> int
    decreases k,
{
    if k == 0 {
        0
    } else if entries[k - 1].0 == i {
        entries[k - 1].1.val()
    } else {
        sparse_value(entries, i, (k - 1) as nat)
    }
}

/// A vector of `n` zeros.
pub fn zeros(n: usize) -> (r: Vec<FieldElement>)
    ensures
        r.len() == n,
        forall|i: int| 0 <= i < n ==> #[trigger] r[i].val() == 0,
{
    let mut out: Vec<FieldElement> = Vec::with_capacity(n);
    let mut i: usize = 0;
    while i < n
        invariant
            i <= n,
            out.len() == i,
            forall|k: int| 0 <= k < i ==> #[trigger] out[k].val() == 0,
        decreases n - i,
    {
        out.push(FieldElement::zero());
        i = i + 1;
    }
    out
}

/// `prefix` followed by the `m` low bits of `x`, each as zero or one.
pub fn extend_with_bits(prefix: &[FieldElement], x: usize, m: usize) -> (r: Vec<FieldElement>)
    ensures
        vals(r@) == vals(prefix@) + bool_point(x as nat, m as nat),
{
    let mut out: Vec<FieldElement> = Vec::new();
    let mut i: usize = 0;
    while i < prefix.len()
        invariant
            i <= prefix.len(),
            out@ == prefix@.take(i as int),
        decreases prefix.len() - i,
    {
        out.push(prefix[i]);
        i = i + 1;
        proof {
            assert(out@ =~= prefix@.take(i as int));
        }
    }
    proof {
        assert(prefix@.take(prefix.len() as int) =~= prefix@);
    }
    let mut rem: usize = x;
    let mut t: usize = 0;
    proof {
        assert(two_to(0) == 1);
        assert(vals(out@) =~= vals(prefix@) + bool_point(x as nat, 0));
    }
    while t < m
        invariant
            t <= m,
            rem == x as nat / two_to(t as nat),
            vals(out@) =~= vals(prefix@) + bool_point(x as nat, t as nat),
        decreases m - t,
    {
        proof {
            lemma_bit_shift(x as nat, t as nat);
        }
        let b = if rem % 2 == 1 {
            FieldElement::one()
        } else {
            FieldElement::zero()
        };
        let ghost before = out@;
        out.push(b);
        rem = rem / 2;
        t = t + 1;
        proof {
            assert(out@ == before.push(b));
            assert(vals(out@) =~= vals(before).push(b.val()));
            assert(vals(out@) =~= vals(prefix@) + bool_point(x as nat, t as nat));
        }
    }
    out
}

/// Each basis factor at a vertex is one where the bits agree and zero elsewhere.
proof fn lemma_basis_at_vertex(i: nat, x: nat, n: nat, k: nat)
    requires
        k <= n,
    ensures
        basis(bool_point(i, n), x, k) == if (forall|j: nat| j < k ==> bit(x, j) == bit(i, j)) {
            1int
        } else {
            0int
        },
    decreases k,
{
    if k > 0 {
        let km = (k - 1) as nat;
        lemma_basis_at_vertex(i, x, n, km);
        let pt = bool_point(i, n);
        let r = pt[km as int];
        lemma_reduced(0);
        lemma_reduced(1);
        let f = basis_factor(r, bit(x, km));
        assert(f == if bit(x, km) == bit(i, km) { 1int } else { 0int });
        let prev = basis(pt, x, km);
        assert(prev * f == if prev == 1 && f == 1 { 1int } else { 0int });
        if forall|j: nat| j < k ==> bit(x, j) == bit(i, j) {
            assert(forall|j: nat| j < km ==> bit(x, j) == bit(i, j));
        } else {
            let j0 = choose|j: nat| j < k && bit(x, j) != bit(i, j);
            if j0 < km {
                assert(!(forall|j: nat| j < km ==> bit(x, j) == bit(i, j)));
            }
        }
    }
}

/// Two indices below `2^n` with the same low `n` bits are equal.
proof fn lemma_bits_determine(x: nat, i: nat, n: nat)
    requires
        x < two_to(n),
        i < two_to(n),
        forall|j: nat| j < n ==> bit(x, j) == bit(i, j),
    ensures
        x == i,
    decreases n,
{
    assert(two_to(0) == 1);
    if n > 0 {
        let nm = (n - 1) as nat;
        assert forall|j: nat| j < nm implies #[trigger] bit(x / 2, j) == bit(i / 2, j) by {
            lemma_two_to_pos(j);
            lemma_div_denominator(x as int, 2, two_to(j) as int);
            lemma_div_denominator(i as int, 2, two_to(j) as int);
            assert(bit(x, j + 1) == bit(i, j + 1));
        }
        lemma_bits_determine(x / 2, i / 2, nm);
        assert(two_to(0) == 1);
        assert(bit(x, 0) == bit(i, 0));
        assert(x == 2 * (x / 2) + x % 2);
        assert(i == 2 * (i / 2) + i % 2);
    }
}

proof fn lemma_mle_sum_at_vertex(evals: Seq<FieldElement>, n: nat, i: nat, k: nat)
    requires
        evals.len() == two_to(n),
        i < two_to(n),
        k <= two_to(n),
    ensures
        mle_sum(vals(evals), bool_point(i, n), k) == if i < k {
            evals[i as int].val()
        } else {
            0
        },
    decreases k,
{
    if k > 0 {
        let x = (k - 1) as nat;
        lemma_mle_sum_at_vertex(evals, n, i, x);
        let pt = bool_point(i, n);
        lemma_basis_at_vertex(i, x, n, n);
        if x != i {
            if forall|j: nat| j < n ==> bit(x, j) == bit(i, j) {
                lemma_bits_determine(x, i, n);
            }
        }
        let e = vals(evals)[x as int];
        assert(e == evals[x as int].val());
        lemma_reduced(evals[x as int].val());
        lemma_reduced(evals[i as int].val());
        lemma_reduced(0);
        assert(e * 1 == e);
        assert(e * 0 == 0);
    }
}

/// On every vertex of the hypercube the extension takes the table's value
/// there: at the point whose coordinate `j` is bit `j` of `i`, it is `evals[i]`.
pub proof fn lemma_mle_agrees_on_hypercube(evals: Seq<FieldElement>, n: nat, i: nat)
    requires
        evals.len() == two_to(n),
        i < two_to(n),
    ensures
        mle_eval(vals(evals), bool_point(i, n)) == evals[i as int].val(),
{
    lemma_mle_sum_at_vertex(evals, n, i, two_to(n));
}

proof fn lemma_mle_sum_linear(a: Seq<int>, b: Seq<int>, s: Seq<int>, point: Seq<int>, k: nat)
    requires
        k <= a.len(),
        a.len() == b.len() == s.len(),
        forall|i: int| 0 <= i < s.len() ==> #[trigger] s[i] == fadd(a[i], b[i]),
    ensures
        mle_sum(s, point, k) == fadd(mle_sum(a, point, k), mle_sum(b, point, k)),
    decreases k,
{
    if k == 0 {
        lemma_reduced(0);
    } else {
        let km = (k - 1) as nat;
        lemma_mle_sum_linear(a, b, s, point, km);
        let w = basis(point, km, point.len());
        let big_a = mle_sum(a, point, km);
        let big_b = mle_sum(b, point, km);
        let x = fmul(a[km as int], w);
        let y = fmul(b[km as int], w);
        lemma_fmul_comm(s[km as int], w);
        lemma_fmul_comm(a[km as int], w);
        lemma_fmul_comm(b[km as int], w);
        lemma_fmul_distrib(w, a[km as int], b[km as int]);
        lemma_fadd_reduce(big_a + big_b, x + y);
        lemma_fadd_reduce(big_a + big_b, (x + y) % modulus());
        lemma_fadd_reduce(big_a + x, big_b + y);
        lemma_fadd_reduce(big_a + x, (big_b + y) % modulus());
        assert(fadd(big_a, big_b) == (big_a + big_b) % modulus());
        assert(fadd(fadd(big_a, big_b), fadd(x, y)) == (big_a + big_b + (x + y)) % modulus());
        assert(fadd(fadd(big_a, x), fadd(big_b, y)) == (big_a + x + (big_b + y)) % modulus());
    }
}

/// The extension of an entrywise sum is the sum of the extensions, at every point.
pub proof fn lemma_mle_linear(
    a: MultilinearExtension,
    b: MultilinearExtension,
    sum: MultilinearExtension,
    point: Seq<FieldElement>,
)
    requires
        a.wf(),
        b.wf(),
        sum.wf(),
        a.num_vars == b.num_vars == sum.num_vars,
        forall|i: int|
            0 <= i < sum.evaluations.len() ==> #[trigger] sum.evaluations[i].val() == fadd(
                a.evaluations[i].val(),
                b.evaluations[i].val(),
            ),
    ensures
        mle_eval(sum.table(), vals(point)) == fadd(
            mle_eval(a.table(), vals(point)),
            mle_eval(b.table(), vals(point)),
        ),
{
    assert forall|i: int| 0 <= i < sum.table().len() implies #[trigger] sum.table()[i] == fadd(
        a.table()[i],
        b.table()[i],
    ) by {
        assert(sum.evaluations[i].val() == fadd(a.evaluations[i].val(), b.evaluations[i].val()));
    }
    lemma_mle_sum_linear(a.table(), b.table(), sum.table(), vals(point), a.evaluations.len() as nat);
}

/// Lexicographic order on bit strings, position 0 first: `a < b` where
/// the first position at which they differ has 0 in `a` and 1 in `b`.
pub open spec fn lex_less(a: Seq<bool>, b: Seq<bool>) -> bool
    decreases a.len(),
{
    if a.len() == 0 || b.len() == 0 {
        false
    } else if a[0] && !b[0] {
        false
    } else if !a[0] && b[0] {
        true
    } else {
        lex_less(a.drop_first(), b.drop_first())
    }
}

/// The low `m` bits of `x`, least significant first.
pub open spec fn index_bits(x: nat, m: nat) -> Seq<bool> {
    Seq::new(m, |t: int| bit(x, t as nat))
}

/// Bit `i` of the integer that four little-endian limbs spell (zero past them).
pub open spec fn limb_bit(l: Seq<u64>, i: int) -> bool {
    i / 64 < 4 && ((l[i / 64] >> ((i % 64) as u64)) & 1u64) == 1u64
}

/// The low `m` bits of a field element's canonical integer (its residue).
pub open spec fn element_bits(e: FieldElement, m: nat) -> Seq<bool> {
    Seq::new(m, |i: int| limb_bit(canon(e.val()), i))
}

/// The zero-one indicator of a predicate.
pub open spec fn indicator(b: bool) -> int {
    if b {
        1
    } else {
        0
    }
}

/// The less-than comparator on `num_vars`-bit strings.
#[derive(Debug, Clone)]
pub struct LessThanPolynomial {
    pub num_vars: usize,
}

impl LessThanPolynomial {
    pub fn new(num_vars: usize) -> (r: LessThanPolynomial)
        ensures
            r.num_vars == num_vars,
    {
        LessThanPolynomial { num_vars }
    }

    /// One where `a` comes before `b` in the lexicographic order of their low
    /// `num_vars` bits, zero otherwise.
    pub fn evaluate_at_field_elements(&self, a: FieldElement, b: FieldElement) -> (r: FieldElement)
        ensures
            r.val() == indicator(
                lex_less(
                    element_bits(a, self.num_vars as nat),
                    element_bits(b, self.num_vars as nat),
                ),
            ),
    {
        let a_bits = self.field_to_bits(a);
        let b_bits = self.field_to_bits(b);
        self.evaluate_at_bits(&a_bits, &b_bits)
    }

    /// One where `a_bits` comes before `b_bits` lexicographically, zero otherwise.
    pub fn evaluate_at_bits(&self, a_bits: &[bool], b_bits: &[bool]) -> (r: FieldElement)
        requires
            a_bits.len() == self.num_vars,
            b_bits.len() == self.num_vars,
        ensures
            r.val() == indicator(lex_less(a_bits@, b_bits@)),
    {
        let mut i: usize = 0;
        proof {
            assert(a_bits@.skip(0) =~= a_bits@);
            assert(b_bits@.skip(0) =~= b_bits@);
        }
        while i < self.num_vars
            invariant
                i <= self.num_vars == a_bits.len() == b_bits.len(),
                lex_less(a_bits@, b_bits@) == lex_less(a_bits@.skip(i as int), b_bits@.skip(i as int)),
            decreases self.num_vars - i,
        {
            proof {
                assert(a_bits@.skip(i as int).drop_first() =~= a_bits@.skip(i + 1));
                assert(b_bits@.skip(i as int).drop_first() =~= b_bits@.skip(i + 1));
            }
            if a_bits[i] && !b_bits[i] {
                return FieldElement::zero();
            }
            if !a_bits[i] && b_bits[i] {
                return FieldElement::one();
            }
            i = i + 1;
        }
        FieldElement::zero()
    }

    /// The comparator's table over `2 num_vars` variables: entry `x` compares
    /// the low `num_vars` bits of `x` with the next `num_vars` bits.
    pub fn to_multilinear_extension(&self) -> (r: MultilinearExtension)
        requires
            two_to(2 * self.num_vars as nat) <= usize::MAX,
        ensures
            r.wf(),
            r.num_vars == 2 * self.num_vars,
            forall|x: int|
                0 <= x < r.evaluations.len() ==> #[trigger] r.evaluations[x].val() == indicator(
                    lex_less(
                        index_bits((x % two_to(self.num_vars as nat) as int) as nat, self.num_vars as nat),
                        index_bits((x / two_to(self.num_vars as nat) as int) as nat, self.num_vars as nat),
                    ),
                ),
    {
        proof {
            lemma_two_to_gt(2 * self.num_vars as nat);
        }
        let total_vars = 2 * self.num_vars;
        proof {
            lemma_two_to_mono(self.num_vars as nat, total_vars as nat);
            lemma_two_to_pos(self.num_vars as nat);
        }
        let size = two_to_usize(total_vars);
        let half = two_to_usize(self.num_vars);
        let mut evaluations: Vec<FieldElement> = Vec::with_capacity(size);
        let mut index: usize = 0;
        while index < size
            invariant
                total_vars == 2 * self.num_vars,
                size == two_to(total_vars as nat),
                half == two_to(self.num_vars as nat),
                index <= size,
                evaluations.len() == index,
                forall|x: int|
                    0 <= x < index ==> #[trigger] evaluations[x].val() == indicator(
                        lex_less(
                            index_bits((x % half as int) as nat, self.num_vars as nat),
                            index_bits((x / half as int) as nat, self.num_vars as nat),
                        ),
                    ),
                half >= 1,
            decreases size - index,
        {
            let a_bits = self.index_to_bits(index % half);
            let b_bits = self.index_to_bits(index / half);
            evaluations.push(self.evaluate_at_bits(&a_bits, &b_bits));
            index = index + 1;
        }
        MultilinearExtension { num_vars: total_vars, evaluations }
    }

    /// The low `num_vars` bits of a field element's canonical integer.
    fn field_to_bits(&self, elem: FieldElement) -> (r: Vec<bool>)
        ensures
            r@ == element_bits(elem, self.num_vars as nat),
    {
        let repr = elem.canonical_limbs();
        let mut bits: Vec<bool> = Vec::new();
        let mut i: usize = 0;
        while i < self.num_vars
            invariant
                i <= self.num_vars,
                repr@ == canon(elem.val()),
                bits@ == element_bits(elem, self.num_vars as nat).take(i as int),
            decreases self.num_vars - i,
        {
            let limb_index = i / 64;
            let bit_index = i % 64;
            if limb_index < 4 {
                bits.push((repr[limb_index] >> bit_index as u64) & 1 == 1);
            } else {
                bits.push(false);
            }
            i = i + 1;
            proof {
                assert(bits@ =~= element_bits(elem, self.num_vars as nat).take(i as int));
            }
        }
        proof {
            assert(bits@ =~= element_bits(elem, self.num_vars as nat));
        }
        bits
    }

    /// The low `num_vars` bits of `index`.
    fn index_to_bits(&self, index: usize) -> (r: Vec<bool>)
        ensures
            r@ == index_bits(index as nat, self.num_vars as nat),
    {
        let mut bits: Vec<bool> = Vec::new();
        let mut rem: usize = index;
        let mut i: usize = 0;
        proof {
            assert(two_to(0) == 1);
        }
        while i < self.num_vars
            invariant
                i <= self.num_vars,
                rem == index as nat / two_to(i as nat),
                bits@ == index_bits(index as nat, self.num_vars as nat).take(i as int),
            decreases self.num_vars - i,
        {
            proof {
                lemma_bit_shift(index as nat, i as nat);
            }
            bits.push(rem % 2 == 1);
            rem = rem / 2;
            i = i + 1;
            proof {
                assert(bits@ =~= index_bits(index as nat, self.num_vars as nat).take(i as int));
            }
        }
        proof {
            assert(bits@ =~= index_bits(index as nat, self.num_vars as nat));
        }
        bits
    }
}

} // verus!
