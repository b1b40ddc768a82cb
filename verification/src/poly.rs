//! Dense polynomials over the message field.
//!
//! A polynomial is a coefficient vector `[c_0, c_1, ..., c_n]` of canonical
//! representatives.  The mathematical model works over exact integers:
//! `pmul`, `padd`, `peval` and friends are integer polynomial operations, and
//! executable results are tied to them by congruence modulo `MOD_P`
//! coefficient by coefficient (`pcong`).

use vstd::prelude::*;
use vstd::arithmetic::div_mod::{
    lemma_add_mod_noop, lemma_mul_mod_noop, lemma_mod_twice, lemma_small_mod,
    lemma_mod_bound, lemma_sub_mod_noop,
};
use crate::field::{MOD_P, is_fp, add_p, sub_p, mul_p};

verus! {

/// The integer values of a coefficient vector.
pub open spec fn ints(s: Seq<u64>) -> Seq<int> {
    s.map_values(|x: u64| x as int)
}

/// All entries are canonical representatives of the message field.
pub open spec fn canon_p(s: Seq<u64>) -> bool {
    forall|i: int| 0 <= i < s.len() ==> is_fp(#[trigger] s[i])
}

/// Coefficient `k` of an integer polynomial, `0` beyond its length.
pub open spec fn coeff_at(s: Seq<int>, k: int) -> int {
    if 0 <= k < s.len() {
        s[k]
    } else {
        0
    }
}

/// The coefficients after the first, or the empty sequence.
pub open spec fn tail(s: Seq<int>) -> Seq<int> {
    if s.len() == 0 {
        s
    } else {
        s.drop_first()
    }
}

/// Sum of two integer polynomials.
pub open spec fn padd(a: Seq<int>, b: Seq<int>) -> Seq<int> {
    Seq::new(if a.len() >= b.len() { a.len() } else { b.len() },
        |k: int| coeff_at(a, k) + coeff_at(b, k))
}

/// Difference of two integer polynomials.
pub open spec fn psub(a: Seq<int>, b: Seq<int>) -> Seq<int> {
    Seq::new(if a.len() >= b.len() { a.len() } else { b.len() },
        |k: int| coeff_at(a, k) - coeff_at(b, k))
}

/// An integer polynomial scaled by a constant.
pub open spec fn pscale(c: int, a: Seq<int>) -> Seq<int> {
    a.map_values(|x: int| c * x)
}

/// An integer polynomial multiplied by the indeterminate.
pub open spec fn pshift(a: Seq<int>) -> Seq<int> {
    seq![0int] + a
}

/// Product of two integer polynomials.
pub open spec fn pmul(a: Seq<int>, b: Seq<int>) -> Seq<int>
    decreases a.len(),
{
    if a.len() == 0 {
        Seq::empty()
    } else {
        padd(pscale(a[0], b), pshift(pmul(tail(a), b)))
    }
}

/// Value of an integer polynomial at a point (Horner form).
pub open spec fn peval(a: Seq<int>, x: int) -> int
    decreases a.len(),
{
    if a.len() == 0 {
        0
    } else {
        a[0] + x * peval(tail(a), x)
    }
}

/// Inner product of two integer vectors, truncated to the shorter one.
pub open spec fn dot(a: Seq<int>, b: Seq<int>) -> int
    decreases a.len(),
{
    if a.len() == 0 || b.len() == 0 {
        0
    } else {
        a[0] * b[0] + dot(tail(a), tail(b))
    }
}

/// Suffix sum of an integer vector from position `j0` on.
pub open spec fn ssum(v: Seq<int>, j0: int) -> int
    decreases v.len() - j0,
{
    if j0 < 0 || j0 >= v.len() {
        0
    } else {
        v[j0] + ssum(v, j0 + 1)
    }
}

/// Prefix sum of the first `t` entries of an integer vector.
pub open spec fn psum(v: Seq<int>, t: int) -> int
    decreases t,
{
    if t <= 0 {
        0
    } else {
        psum(v, t - 1) + v[t - 1]
    }
}

/// The whole suffix sum equals the whole prefix sum.
pub proof fn lemma_ssum_eq_psum(v: Seq<int>, j0: int)
    requires
        0 <= j0 <= v.len(),
    ensures
        ssum(v, j0) == psum(v, v.len() as int) - psum(v, j0),
    decreases v.len() - j0,
{
    if j0 == v.len() {
    } else {
        lemma_ssum_eq_psum(v, j0 + 1);
    }
}

/// Dropping the head of a vector shifts its suffix sums.
pub proof fn lemma_ssum_shift(v: Seq<int>, w: Seq<int>)
    requires
        v.len() == w.len() + 1,
        forall|j: int| 0 <= j < w.len() ==> #[trigger] w[j] == v[j + 1],
    ensures
        ssum(v, 1) == ssum(w, 0),
{
    lemma_ssum_shift_at(v, w, 0);
}

proof fn lemma_ssum_shift_at(v: Seq<int>, w: Seq<int>, j0: int)
    requires
        v.len() == w.len() + 1,
        0 <= j0 <= w.len(),
        forall|j: int| 0 <= j < w.len() ==> #[trigger] w[j] == v[j + 1],
    ensures
        ssum(v, j0 + 1) == ssum(w, j0),
    decreases w.len() - j0,
{
    if j0 == w.len() {
    } else {
        lemma_ssum_shift_at(v, w, j0 + 1);
    }
}

/// Entry-wise congruent vectors have congruent suffix sums.
pub proof fn lemma_ssum_cong(v: Seq<int>, w: Seq<int>, j0: int)
    requires
        v.len() == w.len(),
        0 <= j0 <= v.len(),
        forall|j: int| 0 <= j < v.len()
            ==> #[trigger] (v[j] % (MOD_P as int)) == w[j] % (MOD_P as int),
    ensures
        ssum(v, j0) % (MOD_P as int) == ssum(w, j0) % (MOD_P as int),
    decreases v.len() - j0,
{
    if j0 == v.len() {
    } else {
        lemma_ssum_cong(v, w, j0 + 1);
        lemma_add_mod_noop(v[j0], ssum(v, j0 + 1), MOD_P as int);
        lemma_add_mod_noop(w[j0], ssum(w, j0 + 1), MOD_P as int);
    }
}

/// A suffix sum of products is the inner product of the suffixes.
pub proof fn lemma_ssum_is_dot(terms: Seq<int>, e: Seq<int>, x: Seq<int>, j0: int)
    requires
        0 <= j0 <= terms.len(),
        e.len() == terms.len(),
        x.len() == terms.len(),
        forall|j: int| 0 <= j < terms.len() ==> #[trigger] terms[j] == e[j] * x[j],
    ensures
        ssum(terms, j0) == dot(e.skip(j0), x.skip(j0)),
    decreases terms.len() - j0,
{
    if j0 == terms.len() {
        assert(e.skip(j0) =~= Seq::<int>::empty());
    } else {
        lemma_ssum_is_dot(terms, e, x, j0 + 1);
        assert(tail(e.skip(j0)) =~= e.skip(j0 + 1));
        assert(tail(x.skip(j0)) =~= x.skip(j0 + 1));
        assert(dot(e.skip(j0), x.skip(j0))
            == e[j0] * x[j0] + dot(e.skip(j0 + 1), x.skip(j0 + 1)));
    }
}

/// The inner product distributes over a coefficient-wise sum of equal-length
/// vectors.
pub proof fn lemma_dot_padd(a: Seq<int>, b: Seq<int>, x: Seq<int>)
    requires
        a.len() == b.len(),
    ensures
        dot(padd(a, b), x) == dot(a, x) + dot(b, x),
    decreases a.len(),
{
    if a.len() == 0 || x.len() == 0 {
    } else {
        assert(tail(padd(a, b)) =~= padd(tail(a), tail(b)));
        lemma_dot_padd(tail(a), tail(b), tail(x));
        assert(padd(a, b)[0] == a[0] + b[0]);
        assert((a[0] + b[0]) * x[0] == a[0] * x[0] + b[0] * x[0]) by (nonlinear_arith);
    }
}

/// The inner product distributes over a coefficient-wise difference of
/// equal-length vectors.
pub proof fn lemma_dot_psub(a: Seq<int>, b: Seq<int>, x: Seq<int>)
    requires
        a.len() == b.len(),
    ensures
        dot(psub(a, b), x) == dot(a, x) - dot(b, x),
    decreases a.len(),
{
    if a.len() == 0 || x.len() == 0 {
    } else {
        assert(tail(psub(a, b)) =~= psub(tail(a), tail(b)));
        lemma_dot_psub(tail(a), tail(b), tail(x));
        assert(psub(a, b)[0] == a[0] - b[0]);
        assert((a[0] - b[0]) * x[0] == a[0] * x[0] - b[0] * x[0]) by (nonlinear_arith);
    }
}

/// Padding a vector with the zero coefficients past its length does not
/// change the inner product.
pub proof fn lemma_dot_ext(a: Seq<int>, len: int, x: Seq<int>)
    requires
        a.len() <= len <= x.len(),
    ensures
        dot(Seq::new(len as nat, |j: int| coeff_at(a, j)), x) == dot(a, x),
    decreases a.len() + len,
{
    let ext = Seq::new(len as nat, |j: int| coeff_at(a, j));
    if len == 0 {
    } else if a.len() == 0 {
        lemma_dot_zero(ext, x);
    } else {
        assert(tail(ext) =~= Seq::new((len - 1) as nat, |j: int| coeff_at(tail(a), j)));
        lemma_dot_ext(tail(a), len - 1, tail(x));
        assert(dot(ext, x) == ext[0] * x[0] + dot(tail(ext), tail(x)));
        assert(dot(a, x) == a[0] * x[0] + dot(tail(a), tail(x)));
    }
}

/// The inner product with an all-zero vector vanishes.
pub proof fn lemma_dot_zero(z: Seq<int>, x: Seq<int>)
    requires
        forall|j: int| 0 <= j < z.len() ==> #[trigger] z[j] == 0,
    ensures
        dot(z, x) == 0,
    decreases z.len(),
{
    if z.len() == 0 || x.len() == 0 {
    } else {
        assert forall|j: int| 0 <= j < tail(z).len() implies #[trigger] tail(z)[j] == 0 by {
            assert(tail(z)[j] == z[j + 1]);
        }
        lemma_dot_zero(tail(z), tail(x));
        assert(z[0] * x[0] == 0) by (nonlinear_arith)
            requires
                z[0] == 0,
        ;
    }
}

/// The inner product with a vector that is zero except at one position picks
/// that entry.
pub proof fn lemma_dot_spike(e: Seq<int>, x: Seq<int>, jsp: int, c: int)
    requires
        e.len() <= x.len(),
        0 <= jsp < e.len(),
        e[jsp] == c,
        forall|j: int| 0 <= j < e.len() && j != jsp ==> #[trigger] e[j] == 0,
    ensures
        dot(e, x) == c * x[jsp],
    decreases e.len(),
{
    if jsp == 0 {
        assert forall|j: int| 0 <= j < tail(e).len() implies #[trigger] tail(e)[j] == 0 by {
            assert(tail(e)[j] == e[j + 1]);
        }
        lemma_dot_zero(tail(e), tail(x));
    } else {
        assert(tail(e)[jsp - 1] == e[jsp]);
        assert forall|j: int| 0 <= j < tail(e).len() && j != jsp - 1 implies
            #[trigger] tail(e)[j] == 0 by {
            assert(tail(e)[j] == e[j + 1]);
        }
        lemma_dot_spike(tail(e), tail(x), jsp - 1, c);
        assert(e[0] * x[0] == 0) by (nonlinear_arith)
            requires
                e[0] == 0,
        ;
        assert(tail(x)[jsp - 1] == x[jsp]);
    }
}

/// The inner product only reads as much of the right side as the left side
/// is long.
pub proof fn lemma_dot_prefix_agree(a: Seq<int>, x1: Seq<int>, x2: Seq<int>)
    requires
        a.len() <= x1.len(),
        a.len() <= x2.len(),
        forall|j: int| 0 <= j < a.len() ==> #[trigger] x1[j] == x2[j],
    ensures
        dot(a, x1) == dot(a, x2),
    decreases a.len(),
{
    if a.len() == 0 {
    } else {
        assert forall|j: int| 0 <= j < tail(a).len() implies
            #[trigger] tail(x1)[j] == tail(x2)[j] by {
            assert(tail(x1)[j] == x1[j + 1]);
            assert(tail(x2)[j] == x2[j + 1]);
        }
        lemma_dot_prefix_agree(tail(a), tail(x1), tail(x2));
    }
}

/// The inner product after scaling one side.
pub proof fn lemma_dot_pscale(c: int, a: Seq<int>, x: Seq<int>)
    ensures
        dot(pscale(c, a), x) == c * dot(a, x),
    decreases a.len(),
{
    if a.len() == 0 || x.len() == 0 {
        assert(c * dot(a, x) == 0) by (nonlinear_arith)
            requires
                dot(a, x) == 0,
        ;
    } else {
        assert(tail(pscale(c, a)) =~= pscale(c, tail(a)));
        lemma_dot_pscale(c, tail(a), tail(x));
        assert(pscale(c, a)[0] == c * a[0]);
        assert((c * a[0]) * x[0] + c * dot(tail(a), tail(x))
            == c * (a[0] * x[0] + dot(tail(a), tail(x)))) by (nonlinear_arith);
    }
}

/// Congruence of integer polynomials: equal coefficients modulo `MOD_P`.
pub open spec fn pcong(a: Seq<int>, b: Seq<int>) -> bool {
    forall|k: int| 0 <= k ==> #[trigger] (coeff_at(a, k) % (MOD_P as int))
        == coeff_at(b, k) % (MOD_P as int)
}

pub proof fn lemma_pcong_trans(a: Seq<int>, b: Seq<int>, c: Seq<int>)
    requires
        pcong(a, b),
        pcong(b, c),
    ensures
        pcong(a, c),
{
    assert forall|k: int| 0 <= k implies #[trigger] (coeff_at(a, k) % (MOD_P as int))
        == coeff_at(c, k) % (MOD_P as int) by {
        assert(coeff_at(a, k) % (MOD_P as int) == coeff_at(b, k) % (MOD_P as int));
        assert(coeff_at(b, k) % (MOD_P as int) == coeff_at(c, k) % (MOD_P as int));
    }
}

pub proof fn lemma_padd_cong(a: Seq<int>, a2: Seq<int>, b: Seq<int>, b2: Seq<int>)
    requires
        pcong(a, a2),
        pcong(b, b2),
    ensures
        pcong(padd(a, b), padd(a2, b2)),
{
    assert forall|k: int| 0 <= k implies #[trigger] (coeff_at(padd(a, b), k) % (MOD_P as int))
        == coeff_at(padd(a2, b2), k) % (MOD_P as int) by {
        assert(coeff_at(padd(a, b), k) == coeff_at(a, k) + coeff_at(b, k));
        assert(coeff_at(padd(a2, b2), k) == coeff_at(a2, k) + coeff_at(b2, k));
        lemma_add_mod_noop(coeff_at(a, k), coeff_at(b, k), MOD_P as int);
        lemma_add_mod_noop(coeff_at(a2, k), coeff_at(b2, k), MOD_P as int);
    }
}

pub proof fn lemma_pshift_cong(a: Seq<int>, b: Seq<int>)
    requires
        pcong(a, b),
    ensures
        pcong(pshift(a), pshift(b)),
{
    assert forall|k: int| 0 <= k implies #[trigger] (coeff_at(pshift(a), k) % (MOD_P as int))
        == coeff_at(pshift(b), k) % (MOD_P as int) by {
        if k == 0 {
        } else {
            assert(coeff_at(pshift(a), k) == coeff_at(a, k - 1));
            assert(coeff_at(pshift(b), k) == coeff_at(b, k - 1));
        }
    }
}

/// Value of a sum is the sum of the values.
pub proof fn lemma_peval_padd(a: Seq<int>, b: Seq<int>, x: int)
    ensures
        peval(padd(a, b), x) == peval(a, x) + peval(b, x),
    decreases a.len() + b.len(),
{
    if padd(a, b).len() == 0 {
    } else {
        assert(tail(padd(a, b)) =~= padd(tail(a), tail(b)));
        lemma_peval_padd(tail(a), tail(b), x);
        assert(padd(a, b)[0] == coeff_at(a, 0) + coeff_at(b, 0));
        assert(peval(padd(a, b), x)
            == coeff_at(a, 0) + coeff_at(b, 0) + x * (peval(tail(a), x) + peval(tail(b), x)));
        assert(x * (peval(tail(a), x) + peval(tail(b), x))
            == x * peval(tail(a), x) + x * peval(tail(b), x)) by (nonlinear_arith);
        if a.len() == 0 {
            assert(peval(a, x) == 0);
            assert(coeff_at(a, 0) == 0);
        } else {
            assert(peval(a, x) == a[0] + x * peval(tail(a), x));
        }
        if b.len() == 0 {
            assert(peval(b, x) == 0);
            assert(coeff_at(b, 0) == 0);
        } else {
            assert(peval(b, x) == b[0] + x * peval(tail(b), x));
        }
    }
}

/// Value of a difference is the difference of the values.
pub proof fn lemma_peval_psub(a: Seq<int>, b: Seq<int>, x: int)
    ensures
        peval(psub(a, b), x) == peval(a, x) - peval(b, x),
    decreases a.len() + b.len(),
{
    if psub(a, b).len() == 0 {
    } else {
        assert(tail(psub(a, b)) =~= psub(tail(a), tail(b)));
        lemma_peval_psub(tail(a), tail(b), x);
        assert(psub(a, b)[0] == coeff_at(a, 0) - coeff_at(b, 0));
        assert(peval(psub(a, b), x)
            == coeff_at(a, 0) - coeff_at(b, 0)
                + x * (peval(tail(a), x) - peval(tail(b), x)));
        assert(x * (peval(tail(a), x) - peval(tail(b), x))
            == x * peval(tail(a), x) - x * peval(tail(b), x)) by (nonlinear_arith);
        if a.len() == 0 {
            assert(peval(a, x) == 0);
            assert(coeff_at(a, 0) == 0);
        } else {
            assert(peval(a, x) == a[0] + x * peval(tail(a), x));
        }
        if b.len() == 0 {
            assert(peval(b, x) == 0);
            assert(coeff_at(b, 0) == 0);
        } else {
            assert(peval(b, x) == b[0] + x * peval(tail(b), x));
        }
    }
}

/// Value of a scaled polynomial is the scaled value.
pub proof fn lemma_peval_pscale(c: int, a: Seq<int>, x: int)
    ensures
        peval(pscale(c, a), x) == c * peval(a, x),
    decreases a.len(),
{
    if a.len() == 0 {
        assert(c * peval(a, x) == 0) by (nonlinear_arith)
            requires
                peval(a, x) == 0,
        ;
    } else {
        assert(tail(pscale(c, a)) =~= pscale(c, tail(a)));
        lemma_peval_pscale(c, tail(a), x);
        assert(peval(pscale(c, a), x) == c * a[0] + x * (c * peval(tail(a), x)));
        assert(c * a[0] + x * (c * peval(tail(a), x)) == c * (a[0] + x * peval(tail(a), x)))
            by (nonlinear_arith);
    }
}

/// Value of a shifted polynomial.
pub proof fn lemma_peval_pshift(a: Seq<int>, x: int)
    ensures
        peval(pshift(a), x) == x * peval(a, x),
{
    assert(tail(pshift(a)) =~= a);
    assert(peval(pshift(a), x) == 0 + x * peval(a, x));
}

/// Value of a product is the product of the values.
pub proof fn lemma_peval_pmul(a: Seq<int>, b: Seq<int>, x: int)
    ensures
        peval(pmul(a, b), x) == peval(a, x) * peval(b, x),
    decreases a.len(),
{
    if a.len() == 0 {
        assert(peval(a, x) * peval(b, x) == 0) by (nonlinear_arith)
            requires
                peval(a, x) == 0,
        ;
    } else {
        lemma_peval_pmul(tail(a), b, x);
        lemma_peval_padd(pscale(a[0], b), pshift(pmul(tail(a), b)), x);
        lemma_peval_pscale(a[0], b, x);
        lemma_peval_pshift(pmul(tail(a), b), x);
        assert(peval(pmul(a, b), x)
            == a[0] * peval(b, x) + x * (peval(tail(a), x) * peval(b, x)));
        assert(a[0] * peval(b, x) + x * (peval(tail(a), x) * peval(b, x))
            == (a[0] + x * peval(tail(a), x)) * peval(b, x)) by (nonlinear_arith);
    }
}

/// The coefficients reduced to canonical representatives.
pub open spec fn pnorm(a: Seq<int>) -> Seq<int> {
    a.map_values(|x: int| x % (MOD_P as int))
}

/// A canonical coefficient vector congruent to `b` holds exactly the
/// canonical representatives of `b`'s coefficients.
pub proof fn lemma_canon_cong_is_pnorm(a: Seq<u64>, b: Seq<int>)
    requires
        canon_p(a),
        a.len() == b.len(),
        pcong(ints(a), b),
    ensures
        ints(a) =~= pnorm(b),
{
    assert forall|k: int| 0 <= k < a.len() implies ints(a)[k] == pnorm(b)[k] by {
        assert(coeff_at(ints(a), k) % (MOD_P as int) == coeff_at(b, k) % (MOD_P as int));
        lemma_small_mod(a[k] as nat, MOD_P as nat);
    }
}

pub proof fn lemma_psub_cong(a: Seq<int>, a2: Seq<int>, b: Seq<int>, b2: Seq<int>)
    requires
        pcong(a, a2),
        pcong(b, b2),
    ensures
        pcong(psub(a, b), psub(a2, b2)),
{
    assert forall|k: int| 0 <= k implies #[trigger] (coeff_at(psub(a, b), k) % (MOD_P as int))
        == coeff_at(psub(a2, b2), k) % (MOD_P as int) by {
        assert(coeff_at(psub(a, b), k) == coeff_at(a, k) - coeff_at(b, k));
        assert(coeff_at(psub(a2, b2), k) == coeff_at(a2, k) - coeff_at(b2, k));
        lemma_sub_mod_noop(coeff_at(a, k), coeff_at(b, k), MOD_P as int);
        lemma_sub_mod_noop(coeff_at(a2, k), coeff_at(b2, k), MOD_P as int);
    }
}

pub proof fn lemma_pscale_cong(c: int, c2: int, a: Seq<int>, a2: Seq<int>)
    requires
        c % (MOD_P as int) == c2 % (MOD_P as int),
        pcong(a, a2),
    ensures
        pcong(pscale(c, a), pscale(c2, a2)),
{
    assert forall|k: int| 0 <= k implies #[trigger] (coeff_at(pscale(c, a), k) % (MOD_P as int))
        == coeff_at(pscale(c2, a2), k) % (MOD_P as int) by {
        lemma_mul_mod_noop(c, coeff_at(a, k), MOD_P as int);
        lemma_mul_mod_noop(c2, coeff_at(a2, k), MOD_P as int);
        if 0 <= k < a.len() {
            assert(coeff_at(pscale(c, a), k) == c * a[k]);
        } else {
            assert(coeff_at(pscale(c, a), k) == 0);
            assert(c * 0 == 0) by (nonlinear_arith);
            assert((c * coeff_at(a, k)) % (MOD_P as int) == 0int % (MOD_P as int)) by {
                assert(coeff_at(a, k) == 0);
                assert(c * coeff_at(a, k) == 0) by (nonlinear_arith)
                    requires
                        coeff_at(a, k) == 0,
                ;
            }
        }
        if 0 <= k < a2.len() {
            assert(coeff_at(pscale(c2, a2), k) == c2 * a2[k]);
        } else {
            assert(coeff_at(pscale(c2, a2), k) == 0);
            assert(c2 * coeff_at(a2, k) == 0) by (nonlinear_arith)
                requires
                    coeff_at(a2, k) == 0,
            ;
        }
    }
}

/// A polynomial whose coefficients all vanish modulo `MOD_P` multiplies any
/// polynomial into one whose coefficients all vanish.
proof fn lemma_pmul_zero_left(a: Seq<int>, b: Seq<int>)
    requires
        pcong(a, Seq::<int>::empty()),
    ensures
        pcong(pmul(a, b), Seq::<int>::empty()),
    decreases a.len(),
{
    if a.len() == 0 {
    } else {
        assert(coeff_at(a, 0) % (MOD_P as int) == 0);
        assert forall|k: int| 0 <= k implies
            #[trigger] (coeff_at(tail(a), k) % (MOD_P as int)) == 0 by {
            assert(coeff_at(tail(a), k) == coeff_at(a, k + 1));
            assert(coeff_at(a, k + 1) % (MOD_P as int)
                == coeff_at(Seq::<int>::empty(), k + 1) % (MOD_P as int));
        }
        lemma_pmul_zero_left(tail(a), b);
        assert forall|k: int| 0 <= k implies
            #[trigger] (coeff_at(pmul(a, b), k) % (MOD_P as int)) == 0 by {
            let s = coeff_at(pscale(a[0], b), k);
            let t = coeff_at(pshift(pmul(tail(a), b)), k);
            assert(coeff_at(pmul(a, b), k) == s + t);
            assert(s % (MOD_P as int) == 0) by {
                if 0 <= k < b.len() {
                    assert(s == a[0] * b[k]);
                    lemma_mul_mod_noop(a[0], b[k], MOD_P as int);
                    assert(a[0] % (MOD_P as int) == 0);
                    assert((0int * (b[k] % (MOD_P as int))) == 0) by (nonlinear_arith);
                } else {
                    assert(s == 0);
                }
            }
            assert(t % (MOD_P as int) == 0) by {
                if k == 0 {
                    assert(t == 0);
                } else {
                    assert(t == coeff_at(pmul(tail(a), b), k - 1));
                    assert(coeff_at(pmul(tail(a), b), k - 1) % (MOD_P as int) == 0);
                }
            }
            lemma_add_mod_noop(s, t, MOD_P as int);
        }
    }
}

/// Multiplication respects coefficient congruence.
pub proof fn lemma_pmul_cong(a: Seq<int>, a2: Seq<int>, b: Seq<int>, b2: Seq<int>)
    requires
        pcong(a, a2),
        pcong(b, b2),
    ensures
        pcong(pmul(a, b), pmul(a2, b2)),
    decreases a.len() + a2.len(),
{
    if a.len() == 0 && a2.len() == 0 {
    } else if a.len() == 0 {
        assert(pcong(a2, Seq::<int>::empty())) by {
            assert forall|k: int| 0 <= k implies
                #[trigger] (coeff_at(a2, k) % (MOD_P as int)) == 0 by {
                assert(coeff_at(a2, k) % (MOD_P as int)
                    == coeff_at(a, k) % (MOD_P as int));
            }
        }
        lemma_pmul_zero_left(a2, b2);
        lemma_pcong_trans(pmul(a, b), Seq::<int>::empty(), pmul(a2, b2));
    } else if a2.len() == 0 {
        assert(pcong(a, Seq::<int>::empty())) by {
            assert forall|k: int| 0 <= k implies
                #[trigger] (coeff_at(a, k) % (MOD_P as int)) == 0 by {
                assert(coeff_at(a, k) % (MOD_P as int)
                    == coeff_at(a2, k) % (MOD_P as int));
            }
        }
        lemma_pmul_zero_left(a, b);
        assert(pcong(Seq::<int>::empty(), pmul(a2, b2)));
        lemma_pcong_trans(pmul(a, b), Seq::<int>::empty(), pmul(a2, b2));
    } else {
        assert forall|k: int| 0 <= k implies
            #[trigger] (coeff_at(tail(a), k) % (MOD_P as int))
            == coeff_at(tail(a2), k) % (MOD_P as int) by {
            assert(coeff_at(tail(a), k) == coeff_at(a, k + 1));
            assert(coeff_at(tail(a2), k) == coeff_at(a2, k + 1));
            assert(coeff_at(a, k + 1) % (MOD_P as int)
                == coeff_at(a2, k + 1) % (MOD_P as int));
        }
        lemma_pmul_cong(tail(a), tail(a2), b, b2);
        assert(coeff_at(a, 0) == a[0]);
        assert(coeff_at(a2, 0) == a2[0]);
        lemma_pscale_cong(a[0], a2[0], b, b2);
        lemma_pshift_cong(pmul(tail(a), b), pmul(tail(a2), b2));
        lemma_padd_cong(pscale(a[0], b), pscale(a2[0], b2),
            pshift(pmul(tail(a), b)), pshift(pmul(tail(a2), b2)));
    }
}

/// One unfolding of a product coefficient: the head contribution plus the
/// shifted tail product.
pub proof fn lemma_pmul_coeff_step(a: Seq<int>, c: Seq<int>, k: int)
    requires
        0 <= k,
    ensures
        coeff_at(pmul(a, c), k)
            == coeff_at(a, 0) * coeff_at(c, k) + coeff_at(pmul(tail(a), c), k - 1),
{
    if a.len() == 0 {
        assert(coeff_at(a, 0) * coeff_at(c, k) == 0) by (nonlinear_arith)
            requires
                coeff_at(a, 0) == 0,
        ;
        assert(tail(a) =~= a);
    } else {
        let s = pscale(a[0], c);
        let sh = pshift(pmul(tail(a), c));
        assert(coeff_at(padd(s, sh), k) == coeff_at(s, k) + coeff_at(sh, k)) by {
            if k < padd(s, sh).len() {
            } else {
                assert(coeff_at(s, k) == 0);
                assert(coeff_at(sh, k) == 0);
            }
        }
        assert(coeff_at(s, k) == a[0] * coeff_at(c, k)) by {
            if k < c.len() {
            } else {
                assert(coeff_at(s, k) == 0);
                assert(a[0] * coeff_at(c, k) == 0) by (nonlinear_arith)
                    requires
                        coeff_at(c, k) == 0,
                ;
            }
        }
        assert(coeff_at(sh, k) == coeff_at(pmul(tail(a), c), k - 1)) by {
            if k == 0 {
            } else if k < sh.len() {
                assert(sh[k] == pmul(tail(a), c)[k - 1]);
            } else {
                assert(coeff_at(sh, k) == 0);
                assert(k - 1 >= pmul(tail(a), c).len());
            }
        }
    }
}

/// Multiplication distributes over subtraction, coefficient by coefficient.
pub proof fn lemma_pmul_psub_distrib(a: Seq<int>, b: Seq<int>, c: Seq<int>)
    ensures
        forall|k: int| 0 <= k ==> #[trigger] coeff_at(pmul(psub(a, b), c), k)
            == coeff_at(pmul(a, c), k) - coeff_at(pmul(b, c), k),
    decreases a.len() + b.len(),
{
    if a.len() == 0 && b.len() == 0 {
        assert(psub(a, b) =~= Seq::<int>::empty());
    } else {
        assert(tail(psub(a, b)) =~= psub(tail(a), tail(b)));
        lemma_pmul_psub_distrib(tail(a), tail(b), c);
        assert forall|k: int| 0 <= k implies #[trigger] coeff_at(pmul(psub(a, b), c), k)
            == coeff_at(pmul(a, c), k) - coeff_at(pmul(b, c), k) by {
            lemma_pmul_coeff_step(psub(a, b), c, k);
            lemma_pmul_coeff_step(a, c, k);
            lemma_pmul_coeff_step(b, c, k);
            assert(coeff_at(psub(a, b), 0) == coeff_at(a, 0) - coeff_at(b, 0));
            assert((coeff_at(a, 0) - coeff_at(b, 0)) * coeff_at(c, k)
                == coeff_at(a, 0) * coeff_at(c, k) - coeff_at(b, 0) * coeff_at(c, k))
                by (nonlinear_arith);
            if k >= 1 {
                assert(coeff_at(pmul(psub(tail(a), tail(b)), c), k - 1)
                    == coeff_at(pmul(tail(a), c), k - 1)
                        - coeff_at(pmul(tail(b), c), k - 1));
            } else {
                assert(coeff_at(pmul(psub(tail(a), tail(b)), c), k - 1) == 0);
                assert(coeff_at(pmul(tail(a), c), k - 1) == 0);
                assert(coeff_at(pmul(tail(b), c), k - 1) == 0);
            }
        }
    }
}

/// Index of the highest coefficient below `i` that does not vanish modulo
/// `MOD_P`, or `-1` when they all do.
pub open spec fn top_nonzero(d: Seq<int>, i: int) -> int
    decreases i,
{
    if i <= 0 {
        -1
    } else if d[i - 1] % (MOD_P as int) != 0 {
        i - 1
    } else {
        top_nonzero(d, i - 1)
    }
}

/// What the top non-vanishing index means.
pub proof fn lemma_top_nonzero(d: Seq<int>, i: int)
    requires
        0 <= i <= d.len(),
    ensures
        top_nonzero(d, i) < i,
        top_nonzero(d, i) >= 0 ==> d[top_nonzero(d, i)] % (MOD_P as int) != 0,
        forall|j: int| top_nonzero(d, i) < j < i ==> #[trigger] (d[j] % (MOD_P as int)) == 0,
    decreases i,
{
    if i <= 0 {
    } else if d[i - 1] % (MOD_P as int) != 0 {
    } else {
        lemma_top_nonzero(d, i - 1);
    }
}

/// Against a monic multiplier, the product's coefficient at `K` plus the
/// multiplier's degree is congruent to `d[K]`, when every coefficient of `d`
/// above `K` vanishes.
pub proof fn lemma_pmul_top(d: Seq<int>, t: Seq<int>, kk: int)
    requires
        t.len() >= 1,
        t[t.len() - 1] == 1,
        0 <= kk < d.len(),
        forall|j: int| kk < j < d.len() ==> #[trigger] (d[j] % (MOD_P as int)) == 0,
    ensures
        coeff_at(pmul(d, t), kk + t.len() - 1) % (MOD_P as int)
            == d[kk] % (MOD_P as int),
    decreases kk,
{
    let p = MOD_P as int;
    let tt = t.len() - 1;
    lemma_pmul_coeff_step(d, t, kk + tt);
    if kk == 0 {
        assert(coeff_at(t, tt) == 1);
        assert(coeff_at(d, 0) * 1 == coeff_at(d, 0)) by (nonlinear_arith);
        assert forall|j: int| 0 <= j implies
            #[trigger] (coeff_at(tail(d), j) % p) == coeff_at(Seq::<int>::empty(), j) % p by {
            assert(coeff_at(tail(d), j) == coeff_at(d, j + 1));
            if j + 1 < d.len() {
                assert(d[j + 1] % p == 0);
            }
        }
        lemma_pmul_zero_left(tail(d), t);
        assert(coeff_at(pmul(tail(d), t), tt - 1) % p == 0);
        lemma_add_mod_noop(coeff_at(d, 0), coeff_at(pmul(tail(d), t), tt - 1), p);
        lemma_mod_twice(coeff_at(d, 0), p);
        lemma_mod_twice(coeff_at(pmul(tail(d), t), tt - 1), p);
    } else {
        assert(coeff_at(t, kk + tt) == 0);
        assert(coeff_at(d, 0) * 0 == 0) by (nonlinear_arith);
        assert(tail(d)[kk - 1] == d[kk]);
        assert forall|j: int| kk - 1 < j < tail(d).len() implies
            #[trigger] (tail(d)[j] % p) == 0 by {
            assert(tail(d)[j] == d[j + 1]);
        }
        lemma_pmul_top(tail(d), t, kk - 1);
    }
}

/// Division by a monic polynomial is unique: when a polynomial is congruent
/// both to `q * t + rem` with `rem` shorter than `t` and to `h * t` for any
/// integer cofactor `h`, the remainder vanishes modulo `MOD_P`.
pub proof fn lemma_monic_division_unique(pp: Seq<int>, t: Seq<int>, q: Seq<int>,
    rem: Seq<int>, h: Seq<int>)
    requires
        t.len() >= 1,
        t[t.len() - 1] == 1,
        rem.len() < t.len(),
        pcong(pp, padd(pmul(q, t), rem)),
        pcong(pp, pmul(h, t)),
    ensures
        forall|k: int| 0 <= k < rem.len() ==> #[trigger] (rem[k] % (MOD_P as int)) == 0,
{
    let p = MOD_P as int;
    let d = psub(h, q);
    lemma_pmul_psub_distrib(h, q, t);
    assert forall|k: int| 0 <= k implies
        #[trigger] (coeff_at(pmul(d, t), k) % p) == coeff_at(rem, k) % p by {
        let xx = coeff_at(pmul(h, t), k);
        let yy = coeff_at(pmul(q, t), k);
        let rr = coeff_at(rem, k);
        assert(coeff_at(pmul(d, t), k) == xx - yy);
        assert(xx % p == coeff_at(pp, k) % p);
        assert(coeff_at(pp, k) % p == coeff_at(padd(pmul(q, t), rem), k) % p);
        assert(coeff_at(padd(pmul(q, t), rem), k) == yy + rr) by {
            if k < padd(pmul(q, t), rem).len() {
            } else {
                assert(coeff_at(pmul(q, t), k) == 0 && coeff_at(rem, k) == 0);
            }
        }
        lemma_sub_mod_noop(xx, yy, p);
        lemma_sub_mod_noop(yy + rr, yy, p);
        lemma_mod_twice(xx, p);
        lemma_mod_twice(yy, p);
        lemma_mod_twice(yy + rr, p);
        assert((xx - yy) % p == ((xx % p) - (yy % p)) % p);
        assert(((yy + rr) % p - (yy % p)) % p == ((yy + rr) - yy) % p);
    }
    if forall|j: int| 0 <= j < d.len() ==> #[trigger] (d[j] % p) == 0 {
        assert forall|j: int| 0 <= j implies
            #[trigger] (coeff_at(d, j) % p) == coeff_at(Seq::<int>::empty(), j) % p by {
            if j < d.len() {
                assert(d[j] % p == 0);
            }
        }
        lemma_pmul_zero_left(d, t);
        assert forall|k: int| 0 <= k < rem.len() implies #[trigger] (rem[k] % p) == 0 by {
            assert(coeff_at(pmul(d, t), k) % p == 0);
            assert(coeff_at(rem, k) == rem[k]);
        }
    } else {
        let jw = choose|j: int| 0 <= j < d.len() && #[trigger] (d[j] % p) != 0;
        let kk = top_nonzero(d, d.len() as int);
        lemma_top_nonzero(d, d.len() as int);
        assert(kk >= 0) by {
            if kk < 0 {
                assert(d[jw] % p == 0);
            }
        }
        lemma_pmul_top(d, t, kk);
        let tt = t.len() - 1;
        assert(coeff_at(rem, kk + tt) == 0);
        assert(coeff_at(pmul(d, t), kk + tt) % p == coeff_at(rem, kk + tt) % p);
        assert(false);
    }
}

/// Adding a polynomial whose coefficients vanish changes nothing modulo
/// `MOD_P`.
pub proof fn lemma_padd_zero_right(a: Seq<int>, z: Seq<int>)
    requires
        forall|k: int| 0 <= k < z.len() ==> #[trigger] (z[k] % (MOD_P as int)) == 0,
    ensures
        pcong(padd(a, z), a),
{
    assert forall|k: int| 0 <= k implies #[trigger] (coeff_at(padd(a, z), k) % (MOD_P as int))
        == coeff_at(a, k) % (MOD_P as int) by {
        assert(coeff_at(padd(a, z), k) == coeff_at(a, k) + coeff_at(z, k));
        assert(coeff_at(z, k) % (MOD_P as int) == 0);
        lemma_add_mod_noop(coeff_at(a, k), coeff_at(z, k), MOD_P as int);
        lemma_mod_twice(coeff_at(a, k), MOD_P as int);
        assert((coeff_at(a, k) % (MOD_P as int) + 0) % (MOD_P as int)
            == coeff_at(a, k) % (MOD_P as int));
    }
}

/// Length of a product of nonempty polynomials.
pub proof fn lemma_pmul_len(a: Seq<int>, b: Seq<int>)
    requires
        a.len() > 0,
        b.len() > 0,
    ensures
        pmul(a, b).len() == a.len() + b.len() - 1,
    decreases a.len(),
{
    if a.len() == 1 {
        assert(pmul(tail(a), b) =~= Seq::<int>::empty());
        assert(pshift(pmul(tail(a), b)).len() == 1);
        assert(pscale(a[0], b).len() == b.len());
    } else {
        lemma_pmul_len(tail(a), b);
        assert(pshift(pmul(tail(a), b)).len() == a.len() + b.len() - 1);
        assert(pscale(a[0], b).len() == b.len());
    }
}

/// Leading coefficient of a product of nonempty polynomials.
pub proof fn lemma_pmul_leading(a: Seq<int>, b: Seq<int>)
    requires
        a.len() > 0,
        b.len() > 0,
    ensures
        pmul(a, b)[a.len() + b.len() - 2] == a[a.len() - 1] * b[b.len() - 1],
    decreases a.len(),
{
    lemma_pmul_len(a, b);
    let last = a.len() + b.len() - 2;
    if a.len() == 1 {
        assert(pmul(tail(a), b) =~= Seq::<int>::empty());
        assert(coeff_at(pshift(pmul(tail(a), b)), last as int) == 0);
        assert(pmul(a, b)[last as int] == coeff_at(pscale(a[0], b), last as int));
        assert(coeff_at(pscale(a[0], b), last as int) == a[0] * b[b.len() - 1]);
    } else {
        lemma_pmul_leading(tail(a), b);
        lemma_pmul_len(tail(a), b);
        assert(coeff_at(pscale(a[0], b), last as int) == 0);
        assert(coeff_at(pshift(pmul(tail(a), b)), last as int)
            == pmul(tail(a), b)[last - 1]);
        assert(pmul(tail(a), b)[last - 1] == tail(a)[tail(a).len() - 1] * b[b.len() - 1]);
        assert(tail(a)[tail(a).len() - 1] == a[a.len() - 1]);
    }
}

/// Congruent polynomials take congruent values at every point.
pub proof fn lemma_peval_cong(a: Seq<int>, b: Seq<int>, x: int)
    requires
        pcong(a, b),
    ensures
        peval(a, x) % (MOD_P as int) == peval(b, x) % (MOD_P as int),
    decreases a.len() + b.len(),
{
    if a.len() == 0 && b.len() == 0 {
    } else {
        assert forall|k: int| 0 <= k implies #[trigger] (coeff_at(tail(a), k) % (MOD_P as int))
            == coeff_at(tail(b), k) % (MOD_P as int) by {
            assert(coeff_at(tail(a), k) == coeff_at(a, k + 1));
            assert(coeff_at(tail(b), k) == coeff_at(b, k + 1));
            assert(coeff_at(a, k + 1) % (MOD_P as int) == coeff_at(b, k + 1) % (MOD_P as int));
        }
        lemma_peval_cong(tail(a), tail(b), x);
        let ea = peval(tail(a), x);
        let eb = peval(tail(b), x);
        lemma_mul_mod_noop(x, ea, MOD_P as int);
        lemma_mul_mod_noop(x, eb, MOD_P as int);
        assert((x % (MOD_P as int)) * (ea % (MOD_P as int)) % (MOD_P as int)
            == (x % (MOD_P as int)) * (eb % (MOD_P as int)) % (MOD_P as int));
        lemma_add_mod_noop(coeff_at(a, 0), x * ea, MOD_P as int);
        lemma_add_mod_noop(coeff_at(b, 0), x * eb, MOD_P as int);
        assert(coeff_at(a, 0) % (MOD_P as int) == coeff_at(b, 0) % (MOD_P as int));
        assert((coeff_at(a, 0) + x * ea) % (MOD_P as int)
            == (coeff_at(b, 0) + x * eb) % (MOD_P as int));
        assert(peval(a, x) == coeff_at(a, 0) + x * peval(tail(a), x));
        assert(peval(b, x) == coeff_at(b, 0) + x * peval(tail(b), x));
    }
}

/// Sum of two coefficient vectors, entry by entry in the message field.
pub fn poly_add(a: &Vec<u64>, b: &Vec<u64>) -> (r: Vec<u64>)
    requires
        canon_p(a@),
        canon_p(b@),
    ensures
        canon_p(r@),
        r@.len() == if a@.len() >= b@.len() { a@.len() } else { b@.len() },
        pcong(ints(r@), padd(ints(a@), ints(b@))),
{
    let n: usize = if a.len() >= b.len() { a.len() } else { b.len() };
    let mut r: Vec<u64> = Vec::new();
    let mut k: usize = 0;
    while k < n
        invariant
            k <= n,
            n == if a@.len() >= b@.len() { a@.len() } else { b@.len() },
            canon_p(a@),
            canon_p(b@),
            r@.len() == k,
            canon_p(r@),
            forall|j: int| 0 <= j < k ==> #[trigger] (r@[j] as int)
                == (coeff_at(ints(a@), j) + coeff_at(ints(b@), j)) % (MOD_P as int),
        decreases n - k,
    {
        let ca: u64 = if k < a.len() { a[k] } else { 0 };
        let cb: u64 = if k < b.len() { b[k] } else { 0 };
        r.push(add_p(ca, cb));
        k = k + 1;
    }
    proof {
        assert forall|j: int| 0 <= j implies
            #[trigger] (coeff_at(ints(r@), j) % (MOD_P as int))
            == coeff_at(padd(ints(a@), ints(b@)), j) % (MOD_P as int) by {
            if j < r@.len() {
                lemma_mod_twice(coeff_at(ints(a@), j) + coeff_at(ints(b@), j), MOD_P as int);
            }
        }
    }
    r
}

/// Difference of two coefficient vectors in the message field.
pub fn poly_sub(a: &Vec<u64>, b: &Vec<u64>) -> (r: Vec<u64>)
    requires
        canon_p(a@),
        canon_p(b@),
    ensures
        canon_p(r@),
        r@.len() == if a@.len() >= b@.len() { a@.len() } else { b@.len() },
        pcong(ints(r@), psub(ints(a@), ints(b@))),
{
    let n: usize = if a.len() >= b.len() { a.len() } else { b.len() };
    let mut r: Vec<u64> = Vec::new();
    let mut k: usize = 0;
    while k < n
        invariant
            k <= n,
            n == if a@.len() >= b@.len() { a@.len() } else { b@.len() },
            canon_p(a@),
            canon_p(b@),
            r@.len() == k,
            canon_p(r@),
            forall|j: int| 0 <= j < k ==> #[trigger] (r@[j] as int)
                == (coeff_at(ints(a@), j) + MOD_P - coeff_at(ints(b@), j)) % (MOD_P as int),
        decreases n - k,
    {
        let ca: u64 = if k < a.len() { a[k] } else { 0 };
        let cb: u64 = if k < b.len() { b[k] } else { 0 };
        r.push(sub_p(ca, cb));
        k = k + 1;
    }
    proof {
        assert forall|j: int| 0 <= j implies
            #[trigger] (coeff_at(ints(r@), j) % (MOD_P as int))
            == coeff_at(psub(ints(a@), ints(b@)), j) % (MOD_P as int) by {
            if j < r@.len() {
                let ca = coeff_at(ints(a@), j);
                let cb = coeff_at(ints(b@), j);
                lemma_mod_twice(ca + MOD_P - cb, MOD_P as int);
                lemma_add_mod_noop(ca - cb, MOD_P as int, MOD_P as int);
                assert((MOD_P as int) % (MOD_P as int) == 0);
                lemma_mod_twice(ca - cb, MOD_P as int);
            }
        }
    }
    r
}

/// A coefficient vector scaled by a field element.
pub fn poly_scale(c: u64, a: &Vec<u64>) -> (r: Vec<u64>)
    requires
        is_fp(c),
        canon_p(a@),
    ensures
        canon_p(r@),
        r@.len() == a@.len(),
        pcong(ints(r@), pscale(c as int, ints(a@))),
{
    let mut r: Vec<u64> = Vec::new();
    let mut k: usize = 0;
    while k < a.len()
        invariant
            k <= a@.len(),
            is_fp(c),
            canon_p(a@),
            r@.len() == k,
            canon_p(r@),
            forall|j: int| 0 <= j < k ==> #[trigger] (r@[j] as int)
                == (c * a@[j]) % (MOD_P as int),
        decreases a@.len() - k,
    {
        r.push(mul_p(c, a[k]));
        k = k + 1;
    }
    proof {
        assert forall|j: int| 0 <= j implies
            #[trigger] (coeff_at(ints(r@), j) % (MOD_P as int))
            == coeff_at(pscale(c as int, ints(a@)), j) % (MOD_P as int) by {
            if j < r@.len() {
                assert(coeff_at(pscale(c as int, ints(a@)), j) == c * a@[j]);
                lemma_mod_twice(c * a@[j], MOD_P as int);
            }
        }
    }
    r
}

/// A coefficient vector multiplied by the indeterminate.
pub fn poly_shift(a: &Vec<u64>) -> (r: Vec<u64>)
    requires
        canon_p(a@),
    ensures
        canon_p(r@),
        ints(r@) == pshift(ints(a@)),
{
    let mut r: Vec<u64> = Vec::new();
    r.push(0u64);
    let mut k: usize = 0;
    while k < a.len()
        invariant
            k <= a@.len(),
            canon_p(a@),
            r@.len() == k + 1,
            r@[0] == 0,
            canon_p(r@),
            forall|j: int| 0 <= j < k ==> r@[j + 1] == a@[j],
        decreases a@.len() - k,
    {
        r.push(a[k]);
        k = k + 1;
    }
    proof {
        assert(ints(r@) =~= pshift(ints(a@)));
    }
    r
}

/// Product of two coefficient vectors in the message field.
pub fn poly_mul(a: &Vec<u64>, b: &Vec<u64>) -> (r: Vec<u64>)
    requires
        canon_p(a@),
        canon_p(b@),
    ensures
        canon_p(r@),
        r@.len() == pmul(ints(a@), ints(b@)).len(),
        pcong(ints(r@), pmul(ints(a@), ints(b@))),
{
    let mut acc: Vec<u64> = Vec::new();
    let mut i: usize = a.len();
    proof {
        assert(ints(a@).skip(a@.len() as int) =~= Seq::<int>::empty());
    }
    while i > 0
        invariant
            i <= a@.len(),
            canon_p(a@),
            canon_p(b@),
            canon_p(acc@),
            acc@.len() == pmul(ints(a@).skip(i as int), ints(b@)).len(),
            pcong(ints(acc@), pmul(ints(a@).skip(i as int), ints(b@))),
        decreases i,
    {
        i = i - 1;
        let scaled: Vec<u64> = poly_scale(a[i], b);
        let shifted: Vec<u64> = poly_shift(&acc);
        let next: Vec<u64> = poly_add(&scaled, &shifted);
        proof {
            let s_i = ints(a@).skip(i as int);
            let s_i1 = ints(a@).skip(i as int + 1);
            assert(s_i.len() > 0);
            assert(s_i[0] == a@[i as int] as int);
            assert(tail(s_i) =~= s_i1);
            assert(pmul(s_i, ints(b@))
                == padd(pscale(a@[i as int] as int, ints(b@)), pshift(pmul(s_i1, ints(b@)))));
            lemma_pshift_cong(ints(acc@), pmul(s_i1, ints(b@)));
            assert(pcong(ints(shifted@), pshift(pmul(s_i1, ints(b@))))) by {
                assert(ints(shifted@) == pshift(ints(acc@)));
            }
            lemma_padd_cong(ints(scaled@), pscale(a@[i as int] as int, ints(b@)),
                ints(shifted@), pshift(pmul(s_i1, ints(b@))));
            lemma_pcong_trans(ints(next@), padd(ints(scaled@), ints(shifted@)),
                padd(pscale(a@[i as int] as int, ints(b@)), pshift(pmul(s_i1, ints(b@)))));
            assert(pmul(s_i1, ints(b@)).len() == if s_i1.len() == 0 { 0 } else {
                pmul(s_i1, ints(b@)).len() });
        }
        acc = next;
    }
    proof {
        assert(ints(a@).skip(0) =~= ints(a@));
    }
    acc
}

/// Value of a coefficient vector at a field point.
pub fn poly_eval_p(a: &Vec<u64>, x: u64) -> (r: u64)
    requires
        canon_p(a@),
        is_fp(x),
    ensures
        is_fp(r),
        r == peval(ints(a@), x as int) % (MOD_P as int),
{
    let mut acc: u64 = 0;
    let mut i: usize = a.len();
    proof {
        assert(ints(a@).skip(a@.len() as int) =~= Seq::<int>::empty());
        assert(peval(Seq::<int>::empty(), x as int) == 0);
        lemma_small_mod(0nat, MOD_P as nat);
    }
    while i > 0
        invariant
            i <= a@.len(),
            canon_p(a@),
            is_fp(x),
            is_fp(acc),
            acc == peval(ints(a@).skip(i as int), x as int) % (MOD_P as int),
        decreases i,
    {
        i = i - 1;
        let m: u64 = mul_p(x, acc);
        let next: u64 = add_p(a[i], m);
        proof {
            let s_i = ints(a@).skip(i as int);
            let s_i1 = ints(a@).skip(i as int + 1);
            assert(tail(s_i) =~= s_i1);
            let e = peval(s_i1, x as int);
            assert(peval(s_i, x as int) == a@[i as int] + (x as int) * e);
            lemma_mul_mod_noop(x as int, e, MOD_P as int);
            lemma_mod_twice(x as int, MOD_P as int);
            lemma_small_mod(x as nat, MOD_P as nat);
            assert(m == ((x as int) * e) % (MOD_P as int));
            lemma_add_mod_noop(a@[i as int] as int, (x as int) * e, MOD_P as int);
            lemma_small_mod(a@[i as int] as nat, MOD_P as nat);
            lemma_mod_twice((x as int) * e, MOD_P as int);
            assert(next == (a@[i as int] + (x as int) * e) % (MOD_P as int));
        }
        acc = next;
    }
    proof {
        assert(ints(a@).skip(0) =~= ints(a@));
    }
    acc
}

/// True when every coefficient is zero.
pub fn poly_is_zero(a: &Vec<u64>) -> (r: bool)
    ensures
        r == forall|j: int| 0 <= j < a@.len() ==> a@[j] == 0,
{
    let mut k: usize = 0;
    while k < a.len()
        invariant
            k <= a@.len(),
            forall|j: int| 0 <= j < k ==> a@[j] == 0,
        decreases a@.len() - k,
    {
        if a[k] != 0 {
            return false;
        }
        k = k + 1;
    }
    true
}

} // verus!
