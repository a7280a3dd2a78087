//! Arithmetic over vectors of field elements.

use crate::field::{
    fadd, fmul, fsub, lemma_field_range, lemma_fmul_assoc, lemma_fmul_comm, lemma_reduced,
    FieldElement,
};
use crate::polynomials::vals;
use vstd::prelude::*;

verus! {

/// The value at `x` of the polynomial with coefficients `c` (constant term
/// first), in the nested form `c0 + x (c1 + x (c2 + ...))`.
pub open spec fn poly_eval(c: Seq<FieldElement>, x: int) -> int
    decreases c.len(),
{
    if c.len() == 0 {
        0
    } else {
        fadd(c[0].val(), fmul(x, poly_eval(c.drop_first(), x)))
    }
}

/// `poly_eval` on the residues of the coefficients.
pub open spec fn poly_value(c: Seq<int>, x: int) -> int
    decreases c.len(),
{
    if c.len() == 0 {
        0
    } else {
        fadd(c[0], fmul(x, poly_value(c.drop_first(), x)))
    }
}

/// A polynomial's value depends on its coefficients' residues alone.
pub proof fn lemma_poly_eval_vals(c: Seq<FieldElement>, x: int)
    ensures
        poly_eval(c, x) == poly_value(vals(c), x),
    decreases c.len(),
{
    if c.len() > 0 {
        lemma_poly_eval_vals(c.drop_first(), x);
        assert(vals(c).drop_first() =~= vals(c.drop_first()));
    }
}

/// `sum_{i < n} a[i] b[i]` in the field.
pub open spec fn inner(a: Seq<FieldElement>, b: Seq<FieldElement>, n: int) -> int
    decreases n,
{
    if n <= 0 {
        0
    } else {
        fadd(inner(a, b, n - 1), fmul(a[n - 1].val(), b[n - 1].val()))
    }
}

/// `x^n` in the field.
pub open spec fn fpow(x: int, n: nat) -> int
    decreases n,
{
    if n == 0 {
        1
    } else {
        fmul(fpow(x, (n - 1) as nat), x)
    }
}

/// `prod_{i < n} (x - s[i])` in the field.
pub open spec fn vanishing(s: Seq<FieldElement>, x: int, n: int) -> int
    decreases n,
{
    if n <= 0 {
        1
    } else {
        fmul(vanishing(s, x, n - 1), fsub(x, s[n - 1].val()))
    }
}

/// `prod_{i < n} e[i]` in the field.
pub open spec fn product(e: Seq<FieldElement>, n: int) -> int
    decreases n,
{
    if n <= 0 {
        1
    } else {
        fmul(product(e, n - 1), e[n - 1].val())
    }
}

/// The inner product of two vectors of equal length.
pub fn inner_product(a: &[FieldElement], b: &[FieldElement]) -> (r: FieldElement)
    requires
        a.len() == b.len(),
    ensures
        r.val() == inner(a@, b@, a.len() as int),
{
    let mut acc = FieldElement::zero();
    let mut i: usize = 0;
    while i < a.len()
        invariant
            i <= a.len() == b.len(),
            acc.val() == inner(a@, b@, i as int),
        decreases a.len() - i,
    {
        acc = acc.add(&a[i].mul(&b[i]));
        i = i + 1;
    }
    acc
}

/// Evaluates a polynomial (constant term first) at `point` by Horner's rule.
pub fn horner_eval(coeffs: &[FieldElement], point: FieldElement) -> (r: FieldElement)
    ensures
        r.val() == poly_eval(coeffs@, point.val()),
{
    let mut acc = FieldElement::zero();
    let mut i: usize = coeffs.len();
    proof {
        assert(coeffs@.subrange(i as int, i as int).len() == 0);
    }
    while i > 0
        invariant
            i <= coeffs.len(),
            acc.val() == poly_eval(coeffs@.subrange(i as int, coeffs.len() as int), point.val()),
        decreases i,
    {
        let ghost prev = acc.val();
        i = i - 1;
        acc = acc.mul(&point).add(&coeffs[i]);
        proof {
            let tail = coeffs@.subrange(i as int, coeffs.len() as int);
            assert(tail.drop_first() =~= coeffs@.subrange(i + 1, coeffs.len() as int));
            lemma_fmul_comm(prev, point.val());
        }
    }
    proof {
        assert(coeffs@.subrange(0, coeffs.len() as int) =~= coeffs@);
    }
    acc
}

/// `[1, x, x^2, ..., x^(n-1)]`.
pub fn powers(x: FieldElement, n: usize) -> (r: Vec<FieldElement>)
    ensures
        r.len() == n,
        forall|i: int| 0 <= i < n ==> #[trigger] r[i].val() == fpow(x.val(), i as nat),
{
    let mut out: Vec<FieldElement> = Vec::with_capacity(n);
    let mut current = FieldElement::one();
    let mut i: usize = 0;
    while i < n
        invariant
            i <= n,
            out.len() == i,
            current.val() == fpow(x.val(), i as nat),
            forall|k: int| 0 <= k < i ==> #[trigger] out[k].val() == fpow(x.val(), k as nat),
        decreases n - i,
    {
        out.push(current);
        current = current.mul(&x);
        i = i + 1;
    }
    out
}

/// The vanishing polynomial of `set`, `prod_s (x - s)`, at `point`.
pub fn vanishing_poly_eval(set: &[FieldElement], point: FieldElement) -> (r: FieldElement)
    ensures
        r.val() == vanishing(set@, point.val(), set.len() as int),
{
    let mut acc = FieldElement::one();
    let mut i: usize = 0;
    while i < set.len()
        invariant
            i <= set.len(),
            acc.val() == vanishing(set@, point.val(), i as int),
        decreases set.len() - i,
    {
        acc = acc.mul(&point.sub(&set[i]));
        i = i + 1;
    }
    acc
}

/// The inverse of every element, one inversion each.
fn invert_each(elements: &[FieldElement]) -> (r: Vec<FieldElement>)
    requires
        forall|i: int| 0 <= i < elements.len() ==> #[trigger] elements[i].val() != 0,
    ensures
        r.len() == elements.len(),
        forall|i: int|
            0 <= i < elements.len() ==> fmul(#[trigger] elements[i].val(), r[i].val()) == 1,
{
    let mut out: Vec<FieldElement> = Vec::new();
    let mut i: usize = 0;
    while i < elements.len()
        invariant
            i <= elements.len(),
            out.len() == i,
            forall|k: int| 0 <= k < elements.len() ==> #[trigger] elements[k].val() != 0,
            forall|k: int| 0 <= k < i ==> fmul(#[trigger] elements[k].val(), out[k].val()) == 1,
        decreases elements.len() - i,
    {
        assert(elements[i as int].val() != 0);
        match elements[i].inverse() {
            Some(v) => out.push(v),
            None => {
                out.push(FieldElement::zero());
            },
        }
        i = i + 1;
    }
    out
}

/// The inverses of all elements at the cost of one inversion (Montgomery's
/// trick). Every element must be non-zero. In a prime field their product
/// is then non-zero too; were its inversion ever to fail, each element is
/// inverted on its own instead.
pub fn batch_inverse(elements: &[FieldElement]) -> (r: Vec<FieldElement>)
    requires
        forall|i: int| 0 <= i < elements.len() ==> #[trigger] elements[i].val() != 0,
    ensures
        r.len() == elements.len(),
        forall|i: int|
            0 <= i < elements.len() ==> fmul(#[trigger] elements[i].val(), r[i].val()) == 1,
{
    let n = elements.len();
    if n == 0 {
        return Vec::new();
    }
    let mut acc: Vec<FieldElement> = Vec::with_capacity(n);
    acc.push(elements[0]);
    proof {
        lemma_reduced(elements[0].val());
        assert(product(elements@, 0) == 1);
        assert(product(elements@, 1) == fmul(1, elements[0].val()));
    }
    let mut i: usize = 1;
    while i < n
        invariant
            1 <= i <= n == elements.len(),
            acc.len() == i,
            forall|k: int| 0 <= k < i ==> #[trigger] acc[k].val() == product(elements@, k + 1),
        decreases n - i,
    {
        let next = acc[i - 1].mul(&elements[i]);
        acc.push(next);
        i = i + 1;
    }
    let mut inv = match acc[n - 1].inverse() {
        Some(v) => v,
        None => {
            return invert_each(elements);
        },
    };
    proof {
        lemma_fmul_comm(acc[n - 1].val(), inv.val());
    }
    let mut result: Vec<FieldElement> = Vec::with_capacity(n);
    let mut k: usize = 0;
    while k < n
        invariant
            k <= n,
            result.len() == k,
        decreases n - k,
    {
        result.push(FieldElement::zero());
        k = k + 1;
    }
    let mut i: usize = n - 1;
    while i > 0
        invariant
            i < n == elements.len() == acc.len() == result.len(),
            forall|k: int| 0 <= k < n ==> #[trigger] acc[k].val() == product(elements@, k + 1),
            fmul(inv.val(), product(elements@, i + 1)) == 1,
            forall|k: int|
                i < k < n ==> fmul(#[trigger] elements[k].val(), result[k].val()) == 1,
        decreases i,
    {
        let ghost old_inv = inv.val();
        let ghost p = product(elements@, i as int);
        let ghost e = elements[i as int].val();
        result.set(i, inv.mul(&acc[i - 1]));
        inv = inv.mul(&elements[i]);
        proof {
            lemma_fmul_comm(e, fmul(old_inv, p));
            lemma_fmul_assoc(old_inv, p, e);
            lemma_fmul_assoc(old_inv, e, p);
            lemma_fmul_comm(e, p);
        }
        i = i - 1;
    }
    result.set(0, inv);
    proof {
        lemma_fmul_comm(elements[0].val(), inv.val());
    }
    result
}

} // verus!
