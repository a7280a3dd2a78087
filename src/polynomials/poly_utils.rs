//! Univariate polynomials in coefficient form, constant term first.

use crate::field::{
    fadd, finv, fmul, fsub, lemma_field_range, lemma_inverse_unique, lemma_reduced, lemma_sub_nonzero, FieldElement,
};
use crate::polynomials::{vals, zeros};
use crate::utils::field_utils::{horner_eval, poly_eval, poly_value};
use crate::field::{lemma_fadd_reduce, limbs_value, modulus};
use vstd::prelude::*;

verus! {

/// The coefficients of `(x - c) p(x) s` for the polynomial `p` with coefficients `p`.
pub open spec fn mul_linear(p: Seq<int>, c: int, s: int) -> Seq<int> {
    Seq::new(
        p.len() + 1,
        |k: int|
            fmul(
                fsub(
                    if k >= 1 {
                        p[k - 1]
                    } else {
                        0
                    },
                    if k < p.len() {
                        fmul(p[k], c)
                    } else {
                        0
                    },
                ),
                s,
            ),
    )
}

/// The coefficients of `prod_{j < m, j != i} (x - xs[j]) / (xs[i] - xs[j])`.
pub open spec fn basis_coeffs(xs: Seq<int>, i: int, m: nat) -> Seq<int>
    decreases m,
{
    if m == 0 {
        seq![1int]
    } else {
        let prev = basis_coeffs(xs, i, (m - 1) as nat);
        if m - 1 == i {
            prev
        } else {
            mul_linear(prev, xs[m - 1], finv(fsub(xs[i], xs[m - 1])))
        }
    }
}

/// `sum_{i < m} ys[i] * L_i`, where `L_i` is the Lagrange basis polynomial
/// of node `i` among `xs`, truncated to `xs.len()` coefficients.
pub open spec fn lagrange_sum(xs: Seq<int>, ys: Seq<int>, m: nat) -> Seq<int>
    decreases m,
{
    if m == 0 {
        Seq::new(xs.len(), |k: int| 0int)
    } else {
        let prev = lagrange_sum(xs, ys, (m - 1) as nat);
        let li = basis_coeffs(xs, m - 1, xs.len());
        Seq::new(xs.len(), |k: int| fadd(prev[k], fmul(ys[m - 1], li[k])))
    }
}

/// The first and second components of a sequence of pairs.
pub open spec fn firsts(points: Seq<(FieldElement, FieldElement)>) -> Seq<int> {
    points.map_values(|p: (FieldElement, FieldElement)| p.0.val())
}

pub open spec fn seconds(points: Seq<(FieldElement, FieldElement)>) -> Seq<int> {
    points.map_values(|p: (FieldElement, FieldElement)| p.1.val())
}

/// The interpolation nodes are pairwise distinct.
pub open spec fn distinct_nodes(points: Seq<(FieldElement, FieldElement)>) -> bool {
    forall|i: int, j: int|
        0 <= i < points.len() && 0 <= j < points.len() && i != j ==> #[trigger] points[i].0.val()
            != #[trigger] points[j].0.val()
}

proof fn lemma_basis_len(xs: Seq<int>, i: int, m: nat)
    ensures
        basis_coeffs(xs, i, m).len() == if 0 <= i < m {
            m as int
        } else {
            m + 1int
        },
    decreases m,
{
    if m > 0 {
        lemma_basis_len(xs, i, (m - 1) as nat);
    }
}

/// `(x - c) p(x) s`, in coefficients.
fn multiply_by_linear(p: &Vec<FieldElement>, c: FieldElement, s: FieldElement) -> (r: Vec<
    FieldElement,
>)
    requires
        p.len() < usize::MAX,
    ensures
        vals(r@) == mul_linear(vals(p@), c.val(), s.val()),
{
    let n = p.len();
    let mut new_coeffs = zeros(n + 1);
    let mut k: usize = 0;
    while k < n
        invariant
            k <= n == p.len(),
            new_coeffs.len() == n + 1,
            forall|t: int|
                0 <= t < n + 1 ==> #[trigger] new_coeffs[t].val() == if 1 <= t <= k {
                    fadd(0, p[t - 1].val())
                } else {
                    0
                },
        decreases n - k,
    {
        let v = new_coeffs[k + 1].add(&p[k]);
        new_coeffs.set(k + 1, v);
        k = k + 1;
    }
    let mut k: usize = 0;
    while k < n
        invariant
            k <= n == p.len(),
            new_coeffs.len() == n + 1,
            forall|t: int|
                0 <= t < n + 1 ==> #[trigger] new_coeffs[t].val() == if t < k {
                    fsub(
                        if t >= 1 {
                            fadd(0, p[t - 1].val())
                        } else {
                            0
                        },
                        fmul(p[t].val(), c.val()),
                    )
                } else if t >= 1 {
                    fadd(0, p[t - 1].val())
                } else {
                    0
                },
        decreases n - k,
    {
        let v = new_coeffs[k].sub(&p[k].mul(&c));
        new_coeffs.set(k, v);
        k = k + 1;
    }
    proof {
        if n >= 1 {
            lemma_field_range(0, p[n - 1].val());
            lemma_reduced(fadd(0, p[n - 1].val()));
        }
    }
    let mut k: usize = 0;
    while k < n + 1
        invariant
            k <= n + 1,
            n == p.len(),
            new_coeffs.len() == n + 1,
            forall|t: int|
                0 <= t < n + 1 ==> #[trigger] new_coeffs[t].val() == if t < k {
                    fmul(
                        fsub(
                            if t >= 1 {
                                fadd(0, p[t - 1].val())
                            } else {
                                0
                            },
                            if t < n {
                                fmul(p[t].val(), c.val())
                            } else {
                                0
                            },
                        ),
                        s.val(),
                    )
                } else {
                    fsub(
                        if t >= 1 {
                            fadd(0, p[t - 1].val())
                        } else {
                            0
                        },
                        if t < n {
                            fmul(p[t].val(), c.val())
                        } else {
                            0
                        },
                    )
                },
        decreases n + 1 - k,
    {
        proof {
            if k == n {
                if k >= 1 {
                    lemma_reduced(fadd(0, p[k - 1].val()));
                    assert(fadd(0, p[k - 1].val()) - 0 == fadd(0, p[k - 1].val()));
                }
            }
        }
        let v = new_coeffs[k].mul(&s);
        new_coeffs.set(k, v);
        k = k + 1;
    }
    proof {
        assert forall|t: int| 0 <= t < n + 1 implies vals(new_coeffs@)[t] == mul_linear(
            vals(p@),
            c.val(),
            s.val(),
        )[t] by {
            if t >= 1 {
                lemma_reduced(p[t - 1].val());
                assert(vals(p@)[t - 1] == p[t - 1].val());
            }
            if t < n {
                assert(vals(p@)[t] == p[t].val());
            }
        }
        assert(vals(new_coeffs@) =~= mul_linear(vals(p@), c.val(), s.val()));
    }
    new_coeffs
}

/// The coefficients of the polynomial of degree below `points.len()` through
/// the given `(x, y)` points, in Lagrange form: `sum_i y_i L_i(x)` with
/// `L_i(x) = prod_{j != i} (x - x_j) / (x_i - x_j)`.
pub fn lagrange_interpolate(points: &[(FieldElement, FieldElement)]) -> (r: Vec<FieldElement>)
    requires
        points.len() < usize::MAX,
        distinct_nodes(points@),
    ensures
        vals(r@) == lagrange_sum(firsts(points@), seconds(points@), points.len() as nat),
        r.len() == points.len(),
        forall|k: int|
            0 <= k < points.len() ==> poly_value(vals(r@), #[trigger] points[k].0.val())
                == points[k].1.val(),
{
    let n = points.len();
    let ghost xs = firsts(points@);
    let ghost ys = seconds(points@);
    if n == 0 {
        let empty: Vec<FieldElement> = Vec::new();
        proof {
            assert(vals(empty@) =~= lagrange_sum(xs, ys, 0));
        }
        return empty;
    }
    let mut result = zeros(n);
    proof {
        assert(vals(result@) =~= lagrange_sum(xs, ys, 0));
    }
    let mut i: usize = 0;
    while i < n
        invariant
            n == points.len(),
            xs == firsts(points@),
            ys == seconds(points@),
            distinct_nodes(points@),
            n < usize::MAX,
            i <= n,
            result.len() == n,
            vals(result@) == lagrange_sum(xs, ys, i as nat),
            forall|i2: int| 0 <= i2 < i ==> inverses_exist(xs, i2, n as nat),
        decreases n - i,
    {
        let (xi, yi) = points[i];
        let mut li_coeffs: Vec<FieldElement> = Vec::new();
        li_coeffs.push(FieldElement::one());
        proof {
            assert(vals(li_coeffs@) =~= seq![1int]);
            assert(xs[i as int] == xi.val());
        }
        let mut j: usize = 0;
        while j < n
            invariant
                n == points.len(),
                xs == firsts(points@),
                distinct_nodes(points@),
                i < n < usize::MAX,
                j <= n,
                xs[i as int] == xi.val(),
                vals(li_coeffs@) == basis_coeffs(xs, i as int, j as nat),
                li_coeffs.len() == basis_coeffs(xs, i as int, j as nat).len(),
                forall|j2: int|
                    0 <= j2 < j && j2 != i ==> fmul(
                        #[trigger] fsub(xs[i as int], xs[j2]),
                        finv(fsub(xs[i as int], xs[j2])),
                    ) == 1,
            decreases n - j,
        {
            proof {
                lemma_basis_len(xs, i as int, j as nat);
            }
            if i != j {
                let (xj, _) = points[j];
                let denominator = xi.sub(&xj);
                proof {
                    assert(xs[j as int] == xj.val());
                    assert(points[i as int].0.val() != points[j as int].0.val());
                    lemma_sub_nonzero(xi.val(), xj.val());
                }
                match denominator.inverse() {
                    Some(denom_inv) => {
                        proof {
                            lemma_inverse_unique(denominator.val(), denom_inv.val());
                            assert(fmul(fsub(xs[i as int], xs[j as int]), finv(fsub(xs[i as int], xs[j as int]))) == 1);
                        }
                        li_coeffs = multiply_by_linear(&li_coeffs, xj, denom_inv);
                    },
                    None => {},
                }
            }
            j = j + 1;
            proof {
                lemma_basis_len(xs, i as int, j as nat);
                assert(li_coeffs@.len() == vals(li_coeffs@).len());
            }
        }
        proof {
            lemma_basis_len(xs, i as int, n as nat);
            assert(inverses_exist(xs, i as int, n as nat));
        }
        let ghost prev = result@;
        let mut k: usize = 0;
        while k < n
            invariant
                n == points.len(),
                i < n,
                k <= n,
                result.len() == n,
                prev.len() == n,
                li_coeffs.len() == n,
                ys == seconds(points@),
                ys[i as int] == yi.val(),
                forall|t: int|
                    0 <= t < n ==> #[trigger] result[t].val() == if t < k {
                        fadd(prev[t].val(), fmul(yi.val(), li_coeffs[t].val()))
                    } else {
                        prev[t].val()
                    },
            decreases n - k,
        {
            let v = result[k].add(&yi.mul(&li_coeffs[k]));
            result.set(k, v);
            k = k + 1;
        }
        i = i + 1;
        proof {
            let li = basis_coeffs(xs, (i - 1) as int, xs.len());
            assert forall|t: int| 0 <= t < n implies vals(result@)[t] == lagrange_sum(
                xs,
                ys,
                i as nat,
            )[t] by {
                assert(vals(prev)[t] == prev[t].val());
                assert(vals(li_coeffs@)[t] == li_coeffs[t].val());
            }
            assert(vals(result@) =~= lagrange_sum(xs, ys, i as nat));
        }
    }
    proof {
        assert forall|k: int| 0 <= k < ys.len() implies 0 <= #[trigger] ys[k] < modulus() by {
            vstd::arithmetic::div_mod::lemma_mod_bound(limbs_value(points[k].1.limb_seq()), modulus());
        }
        assert forall|k: int| 0 <= k < n implies poly_value(vals(result@), #[trigger] points[k].0.val())
            == points[k].1.val() by {
            lemma_interpolates(xs, ys, k);
        }
    }
    result
}

/// The value of a polynomial at `point`.
pub fn evaluate_polynomial(coeffs: &[FieldElement], point: FieldElement) -> (r: FieldElement)
    ensures
        r.val() == poly_eval(coeffs@, point.val()),
{
    horner_eval(coeffs, point)
}

/// The coefficients of the derivative: `i c_i` at position `i - 1`; the
/// zero polynomial `[0]` for a constant.
pub fn derivative(coeffs: &[FieldElement]) -> (r: Vec<FieldElement>)
    requires
        coeffs.len() <= u64::MAX,
    ensures
        coeffs.len() <= 1 ==> r.len() == 1 && r[0].val() == 0,
        coeffs.len() > 1 ==> r.len() == coeffs.len() - 1 && forall|i: int|
            0 <= i < r.len() ==> #[trigger] r[i].val() == fmul(coeffs[i + 1].val(), i + 1),
{
    if coeffs.len() <= 1 {
        let mut out: Vec<FieldElement> = Vec::new();
        out.push(FieldElement::zero());
        return out;
    }
    let mut out: Vec<FieldElement> = Vec::new();
    let mut i: usize = 1;
    while i < coeffs.len()
        invariant
            1 <= i <= coeffs.len() <= u64::MAX,
            out.len() == i - 1,
            forall|k: int|
                0 <= k < out.len() ==> #[trigger] out[k].val() == fmul(coeffs[k + 1].val(), k + 1),
        decreases coeffs.len() - i,
    {
        out.push(coeffs[i].mul(&FieldElement::from_u64(i as u64)));
        i = i + 1;
    }
    out
}

/// The nodes `0, 1, ..., n - 1`.
pub open spec fn index_nodes(n: nat) -> Seq<int> {
    Seq::new(n, |i: int| i)
}

/// The coefficients of the polynomial of degree below `n` that takes the
/// value `vector[i]` at each `i < n`.
pub fn interpolate_vector(vector: &[FieldElement]) -> (r: Vec<FieldElement>)
    requires
        vector.len() < usize::MAX,
    ensures
        r.len() == vector.len(),
        vals(r@) == lagrange_sum(
            index_nodes(vector.len() as nat),
            vals(vector@),
            vector.len() as nat,
        ),
        forall|k: int| 0 <= k < vector.len() ==> poly_value(vals(r@), k) == #[trigger] vector[k].val(),
{
    let mut points: Vec<(FieldElement, FieldElement)> = Vec::new();
    let mut i: usize = 0;
    while i < vector.len()
        invariant
            i <= vector.len(),
            points.len() == i,
            forall|k: int|
                0 <= k < i ==> #[trigger] points[k].0.val() == k && points[k].1 == vector[k],
        decreases vector.len() - i,
    {
        let ghost before = points@;
        points.push((FieldElement::from_u64(i as u64), vector[i]));
        proof {
            assert forall|k: int| 0 <= k < i + 1 implies #[trigger] points[k].0.val() == k && points[k].1 == vector[k] by {
                if k < i {
                    assert(points[k] == before[k]);
                    assert(before[k].0.val() == k);
                }
            }
        }
        i = i + 1;
    }
    proof {
        assert(firsts(points@) =~= index_nodes(vector.len() as nat));
        assert forall|k: int| 0 <= k < vector.len() implies #[trigger] seconds(points@)[k] == vals(
            vector@,
        )[k] by {
            assert(points[k].0.val() == k);
            assert(points[k].1 == vector[k]);
        }
        assert(seconds(points@) =~= vals(vector@));
    }
    let r = lagrange_interpolate(points.as_slice());
    proof {
        assert(r@.len() == vals(r@).len());
        assert forall|k: int| 0 <= k < vector.len() implies poly_value(vals(r@), k) == #[trigger] vector[k].val() by {
            assert(points[k].0.val() == k);
            assert(points[k].1 == vector[k]);
        }
    }
    r
}

/// The integer (unreduced) value of a polynomial, in nested form.
pub open spec fn pe(c: Seq<int>, x: int) -> int
    decreases c.len(),
{
    if c.len() == 0 {
        0
    } else {
        c[0] + x * pe(c.drop_first(), x)
    }
}

proof fn lemma_pv_pe(c: Seq<int>, x: int)
    ensures
        poly_value(c, x) == pe(c, x) % modulus(),
    decreases c.len(),
{
    if c.len() == 0 {
        lemma_reduced(0);
    } else {
        let t = pe(c.drop_first(), x);
        lemma_pv_pe(c.drop_first(), x);
        lemma_fadd_reduce(x, t);
        lemma_fadd_reduce(c[0], x * t);
    }
}

proof fn lemma_pe_combo(u: Seq<int>, v: Seq<int>, a: int, b: int, x: int)
    requires
        u.len() == v.len(),
    ensures
        pe(Seq::new(u.len(), |k: int| a * u[k] + b * v[k]), x) == a * pe(u, x) + b * pe(v, x),
    decreases u.len(),
{
    let w = Seq::new(u.len(), |k: int| a * u[k] + b * v[k]);
    if u.len() > 0 {
        let u1 = u.drop_first();
        let v1 = v.drop_first();
        assert(w.drop_first() =~= Seq::new(u1.len(), |k: int| a * u1[k] + b * v1[k]));
        lemma_pe_combo(u1, v1, a, b, x);
        let pu = pe(u1, x);
        let pv = pe(v1, x);
        assert(x * (a * pu + b * pv) == a * (x * pu) + b * (x * pv)) by (nonlinear_arith);
        assert(a * (u[0] + x * pu) + b * (v[0] + x * pv) == a * u[0] + b * v[0] + (a * (x * pu) + b * (x * pv))) by (nonlinear_arith);
    } else {
        assert(a * 0 + b * 0 == 0) by (nonlinear_arith);
    }
}

proof fn lemma_pe_congruent(c: Seq<int>, d: Seq<int>, x: int)
    requires
        c.len() == d.len(),
        forall|k: int| 0 <= k < c.len() ==> #[trigger] (c[k] % modulus()) == d[k] % modulus(),
    ensures
        pe(c, x) % modulus() == pe(d, x) % modulus(),
    decreases c.len(),
{
    if c.len() > 0 {
        let c1 = c.drop_first();
        let d1 = d.drop_first();
        assert forall|k: int| 0 <= k < c1.len() implies #[trigger] (c1[k] % modulus()) == d1[k] % modulus() by {
            assert(c1[k] == c[k + 1]);
            assert(d1[k] == d[k + 1]);
        }
        lemma_pe_congruent(c1, d1, x);
        let tc = pe(c1, x);
        let td = pe(d1, x);
        assert(c[0] % modulus() == d[0] % modulus());
        lemma_fadd_reduce(c[0], x * tc);
        lemma_fadd_reduce(d[0], x * td);
        lemma_fadd_reduce(x, tc);
        lemma_fadd_reduce(x, td);
        lemma_fadd_reduce(c[0] % modulus(), x * tc);
        lemma_fadd_reduce(d[0] % modulus(), x * td);
    }
}

proof fn lemma_pe_pad(p: Seq<int>, x: int)
    ensures
        pe(p + seq![0int], x) == pe(p, x),
    decreases p.len(),
{
    let q = p + seq![0int];
    if p.len() == 0 {
        assert(q.drop_first() =~= Seq::<int>::empty());
        assert(pe(q.drop_first(), x) == 0);
        assert(x * 0 == 0);
        assert(q[0] == 0);
    } else {
        assert(q.drop_first() =~= p.drop_first() + seq![0int]);
        assert(q[0] == p[0]);
        lemma_pe_pad(p.drop_first(), x);
    }
}

/// Multiplying by `(x - c) s` multiplies the value by `(x - c) s`.
proof fn lemma_mul_linear_value(p: Seq<int>, c: int, s: int, x: int)
    ensures
        poly_value(mul_linear(p, c, s), x) == fmul(fmul(fsub(x, c), s), poly_value(p, x)),
{
    let m = mul_linear(p, c, s);
    let n = p.len() + 1;
    let shift = seq![0int] + p;
    let ext = p + seq![0int];
    let d = Seq::new(n, |k: int| s * shift[k] + (-s * c) * ext[k]);
    assert forall|k: int| 0 <= k < n implies #[trigger] (m[k] % modulus()) == d[k] % modulus() by {
        let h = if k >= 1 { p[k - 1] } else { 0 };
        let l = if k < p.len() { p[k] } else { 0 };
        assert(shift[k] == h);
        assert(ext[k] == l);
        lemma_fadd_reduce(h, l * c);
        lemma_fadd_reduce(h - l * c, s);
        crate::field::lemma_field_range(h, l * c);
        crate::field::lemma_field_range(h - l * c, s);
        if k < p.len() {
            assert(m[k] == fmul(fsub(h, fmul(l, c)), s));
        } else {
            assert(l == 0);
            assert(0 * c == 0);
            assert(l * c == 0);
            assert(m[k] == fmul(fsub(h, 0), s));
        }
        assert((h - l * c) * s == s * h + (-s * c) * l) by (nonlinear_arith);
        crate::field::lemma_reduced(m[k]);
    }
    lemma_pe_congruent(m, d, x);
    lemma_pe_combo(shift, ext, s, -s * c, x);
    assert(shift.drop_first() =~= p);
    lemma_pe_pad(p, x);
    let q = pe(p, x);
    assert(pe(shift, x) == 0 + x * q);
    assert(s * (x * q) + (-s * c) * q == ((x - c) * s) * q) by (nonlinear_arith);
    lemma_pv_pe(m, x);
    lemma_pv_pe(p, x);
    lemma_fadd_reduce(x - c, s);
    lemma_fadd_reduce((x - c) * s, q);
    lemma_fadd_reduce(fsub(x, c) * s, q);
    assert(fmul(fsub(x, c), s) == ((x - c) * s) % modulus());
    lemma_fadd_reduce(fmul(fsub(x, c), s), q);
}

/// `prod_{j < m, j != i} (x - xs[j]) / (xs[i] - xs[j])`.
pub open spec fn basis_value(xs: Seq<int>, i: int, m: nat, x: int) -> int
    decreases m,
{
    if m == 0 {
        1
    } else {
        let prev = basis_value(xs, i, (m - 1) as nat, x);
        if m - 1 == i {
            prev
        } else {
            fmul(fmul(fsub(x, xs[m - 1]), finv(fsub(xs[i], xs[m - 1]))), prev)
        }
    }
}

proof fn lemma_basis_value(xs: Seq<int>, i: int, m: nat, x: int)
    ensures
        poly_value(basis_coeffs(xs, i, m), x) == basis_value(xs, i, m, x),
    decreases m,
{
    if m == 0 {
        let one = seq![1int];
        assert(one.drop_first() =~= Seq::<int>::empty());
        assert(poly_value(one.drop_first(), x) == 0);
        lemma_reduced(1);
        lemma_reduced(0);
        assert(x * 0 == 0);
        assert(fmul(x, 0) == 0);
        assert(poly_value(one, x) == fadd(1, fmul(x, 0)));
        assert(basis_coeffs(xs, i, m) == one);
    } else {
        lemma_basis_value(xs, i, (m - 1) as nat, x);
        if m - 1 != i {
            lemma_mul_linear_value(
                basis_coeffs(xs, i, (m - 1) as nat),
                xs[m - 1],
                finv(fsub(xs[i], xs[m - 1])),
                x,
            );
        }
    }
}

/// Every node difference used in the basis of node `i` has its inverse.
pub open spec fn inverses_exist(xs: Seq<int>, i: int, m: nat) -> bool {
    forall|j: int|
        0 <= j < m && j != i ==> fmul(#[trigger] fsub(xs[i], xs[j]), finv(fsub(xs[i], xs[j]))) == 1
}

proof fn lemma_basis_at_nodes(xs: Seq<int>, i: int, m: nat, k: int)
    requires
        inverses_exist(xs, i, m),
        m <= xs.len(),
        0 <= k < xs.len(),
    ensures
        basis_value(xs, i, m, xs[i]) == 1,
        k < m && k != i ==> basis_value(xs, i, m, xs[k]) == 0,
    decreases m,
{
    lemma_reduced(1);
    lemma_reduced(0);
    if m > 0 {
        let j = m - 1;
        lemma_basis_at_nodes(xs, i, (m - 1) as nat, k);
        if j != i {
            let dd = fsub(xs[i], xs[j]);
            assert(fmul(dd, finv(dd)) == 1);
            assert(1 * 1 == 1);
            let dk = fsub(xs[k], xs[j]);
            let fk = fmul(dk, finv(fsub(xs[i], xs[j])));
            if k == j {
                assert(xs[k] - xs[j] == 0);
                assert(dk == 0);
                assert(0 * finv(fsub(xs[i], xs[j])) == 0);
                assert(fk == 0);
                assert(0 * basis_value(xs, i, (m - 1) as nat, xs[k]) == 0);
            } else if k < m && k != i {
                assert(fk * 0 == 0);
            }
        }
    }
}

/// `sum_{i < m} ys[i] L_i(x)`.
pub open spec fn lagrange_value(xs: Seq<int>, ys: Seq<int>, m: nat, x: int) -> int
    decreases m,
{
    if m == 0 {
        0
    } else {
        fadd(
            lagrange_value(xs, ys, (m - 1) as nat, x),
            fmul(ys[m - 1], poly_value(basis_coeffs(xs, m - 1, xs.len()), x)),
        )
    }
}

proof fn lemma_lagrange_sum_len(xs: Seq<int>, ys: Seq<int>, m: nat)
    ensures
        lagrange_sum(xs, ys, m).len() == xs.len(),
    decreases m,
{
    if m > 0 {
        lemma_lagrange_sum_len(xs, ys, (m - 1) as nat);
    }
}

proof fn lemma_lagrange_value(xs: Seq<int>, ys: Seq<int>, m: nat, x: int)
    requires
        m <= xs.len(),
        m <= ys.len(),
    ensures
        poly_value(lagrange_sum(xs, ys, m), x) == lagrange_value(xs, ys, m, x),
    decreases m,
{
    let n = xs.len();
    if m == 0 {
        lemma_pv_pe(Seq::new(n, |k: int| 0int), x);
        let zs = Seq::new(n, |k: int| 0int);
        lemma_pe_combo(zs, zs, 0, 0, x);
        assert(Seq::new(n, |k: int| 0 * zs[k] + 0 * zs[k]) =~= zs);
        assert(0 * pe(zs, x) + 0 * pe(zs, x) == 0) by (nonlinear_arith);
        lemma_reduced(0);
    } else {
        lemma_lagrange_value(xs, ys, (m - 1) as nat, x);
        lemma_lagrange_sum_len(xs, ys, (m - 1) as nat);
        lemma_basis_len(xs, m - 1, n);
        let prev = lagrange_sum(xs, ys, (m - 1) as nat);
        let li = basis_coeffs(xs, m - 1, n);
        let y = ys[m - 1];
        let cur = lagrange_sum(xs, ys, m);
        let d = Seq::new(n, |k: int| 1 * prev[k] + y * li[k]);
        assert forall|k: int| 0 <= k < n implies #[trigger] (cur[k] % modulus()) == d[k] % modulus() by {
            lemma_fadd_reduce(prev[k], y * li[k]);
            crate::field::lemma_field_range(prev[k], fmul(y, li[k]));
            lemma_reduced(cur[k]);
            assert(1 * prev[k] == prev[k]);
        }
        lemma_pe_congruent(cur, d, x);
        lemma_pe_combo(prev, li, 1, y, x);
        lemma_pv_pe(cur, x);
        lemma_pv_pe(prev, x);
        lemma_pv_pe(li, x);
        let a = pe(prev, x);
        let b = pe(li, x);
        assert(1 * a == a);
        lemma_fadd_reduce(y, b);
        lemma_fadd_reduce(a, y * b);
        lemma_fadd_reduce(a, fmul(y, b));
        assert(fadd(a % modulus(), fmul(y, b % modulus())) == fadd(a, y * b));
    }
}

proof fn lemma_lagrange_at_nodes(xs: Seq<int>, ys: Seq<int>, m: nat, k: int)
    requires
        m <= xs.len() == ys.len(),
        0 <= k < xs.len(),
        forall|i: int| 0 <= i < xs.len() ==> inverses_exist(xs, i, xs.len()),
        forall|i: int| 0 <= i < ys.len() ==> 0 <= #[trigger] ys[i] < modulus(),
    ensures
        lagrange_value(xs, ys, m, xs[k]) == if k < m {
            ys[k]
        } else {
            0
        },
    decreases m,
{
    lemma_reduced(0);
    if m > 0 {
        let i = m - 1;
        lemma_lagrange_at_nodes(xs, ys, (m - 1) as nat, k);
        assert(inverses_exist(xs, i, xs.len()));
        lemma_basis_value(xs, i, xs.len(), xs[k]);
        lemma_basis_at_nodes(xs, i, xs.len(), k);
        lemma_reduced(ys[i]);
        lemma_reduced(ys[k]);
        assert(ys[i] * 1 == ys[i]);
        assert(ys[i] * 0 == 0);
    }
}

/// The interpolant through distinct nodes takes each node's value there.
pub proof fn lemma_interpolates(xs: Seq<int>, ys: Seq<int>, k: int)
    requires
        xs.len() == ys.len(),
        0 <= k < xs.len(),
        forall|i: int| 0 <= i < xs.len() ==> inverses_exist(xs, i, xs.len()),
        forall|i: int| 0 <= i < ys.len() ==> 0 <= #[trigger] ys[i] < modulus(),
    ensures
        poly_value(lagrange_sum(xs, ys, xs.len()), xs[k]) == ys[k],
{
    lemma_lagrange_value(xs, ys, xs.len(), xs[k]);
    lemma_lagrange_at_nodes(xs, ys, xs.len(), k);
}

/// Where every coefficient but the constant one agrees with `(x - z) q(x)`,
/// the value at `z` fixes the constant term: it is that of `(x - z) q(x) + v`.
pub proof fn lemma_linear_quotient(pv: Seq<int>, q: Seq<int>, z: int, v: int)
    requires
        pv.len() == q.len() + 1,
        forall|k: int| 1 <= k < pv.len() ==> #[trigger] pv[k] == mul_linear(q, z, 1)[k],
        forall|k: int| 0 <= k < pv.len() ==> 0 <= #[trigger] pv[k] < modulus(),
        poly_value(pv, z) == v,
    ensures
        pv[0] == fadd(mul_linear(q, z, 1)[0], v),
{
    let n = pv.len();
    let ml = mul_linear(q, z, 1);
    let c = pv[0] - ml[0];
    let e0 = Seq::new(n, |k: int| if k == 0 { 1int } else { 0int });
    let zs = Seq::new((n - 1) as nat, |k: int| 0int);
    lemma_pe_combo(zs, zs, 0, 0, z);
    assert(Seq::new(zs.len(), |k: int| 0 * zs[k] + 0 * zs[k]) =~= zs);
    assert(0 * pe(zs, z) + 0 * pe(zs, z) == 0) by (nonlinear_arith);
    assert(e0.drop_first() =~= zs);
    assert(z * 0 == 0);
    assert(pe(e0, z) == 1);
    let d = Seq::new(n, |k: int| 1 * ml[k] + c * e0[k]);
    assert forall|k: int| 0 <= k < n implies #[trigger] d[k] == pv[k] by {
        if k == 0 {
            assert(c * 1 == c);
        } else {
            assert(c * 0 == 0);
        }
    }
    assert(d =~= pv);
    lemma_pe_combo(ml, e0, 1, c, z);
    lemma_pv_pe(pv, z);
    lemma_pv_pe(ml, z);
    lemma_mul_linear_value(q, z, 1, z);
    lemma_reduced(0);
    assert(fsub(z, z) == 0);
    assert(0 * 1 == 0);
    assert(fmul(fsub(z, z), 1) == 0);
    assert(0 * poly_value(q, z) == 0);
    assert(pe(ml, z) % modulus() == 0);
    assert(1 * pe(ml, z) + c * 1 == pe(ml, z) + c);
    vstd::arithmetic::div_mod::lemma_add_mod_noop(pe(ml, z), c, modulus());
    vstd::arithmetic::div_mod::lemma_mod_twice(c, modulus());
    assert(v == c % modulus());
    lemma_fadd_reduce(ml[0], c);
    lemma_reduced(pv[0]);
}

} // verus!
