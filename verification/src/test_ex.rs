//! Example data: the two-constraint demonstration circuit, a random SAP
//! sanity run, and an encode/decode round trip.

use vstd::prelude::*;
use crate::field::{MOD_P, MOD_Q, neg_q};
use crate::poly::{ints, canon_p, pmul, coeff_at, poly_mul, poly_sub, poly_add,
    lemma_pmul_len, lemma_pmul_leading};
use crate::r1cs::{Constraint, R1CS};
use crate::lwe::{LWE, canon_q, spec_neg_vec, spec_encode_c1, spec_decode,
    lemma_lwe_round_trip, lemma_neg_vec_involution};
use crate::sap::combine;
use crate::utils::poly_div_rem;
use crate::common::sample_fr_elem_zp;
use vstd::arithmetic::div_mod::lemma_small_mod;

verus! {

/// Coefficient rows of the first demonstration constraint, `x3 * x4 = x5`.
pub open spec fn spec_first_a() -> Seq<u64> {
    seq![0u64, 0, 0, 1, 0, 0, 0]
}

pub open spec fn spec_first_b() -> Seq<u64> {
    seq![0u64, 0, 0, 0, 1, 0, 0]
}

pub open spec fn spec_first_c() -> Seq<u64> {
    seq![0u64, 0, 0, 0, 0, 1, 0]
}

/// Coefficient rows of the second demonstration constraint,
/// `(x1 + x2) * x5 = x6`.
pub open spec fn spec_second_a() -> Seq<u64> {
    seq![0u64, 1, 1, 0, 0, 0, 0]
}

pub open spec fn spec_second_b() -> Seq<u64> {
    seq![0u64, 0, 0, 0, 0, 1, 0]
}

pub open spec fn spec_second_c() -> Seq<u64> {
    seq![0u64, 0, 0, 0, 0, 0, 1]
}

/// The demonstration R1CS over seven wires `[1, x1..x6]`: `x3 * x4 = x5`
/// and `(x1 + x2) * x5 = x6`, with four inputs and one output.
pub fn new_test_r1cs() -> (r: R1CS)
    ensures
        r.wf(),
        r.constraints@.len() == 2,
        r.constraints@[0].a@ == spec_first_a(),
        r.constraints@[0].b@ == spec_first_b(),
        r.constraints@[0].c@ == spec_first_c(),
        r.constraints@[1].a@ == spec_second_a(),
        r.constraints@[1].b@ == spec_second_b(),
        r.constraints@[1].c@ == spec_second_c(),
        r.number_of_inputs == 4,
        r.number_of_outputs == 1,
        r.spec_witness_size() == 7,
{
    let mut constraints: Vec<Constraint> = Vec::new();
    constraints.push(new_test_first_constraint());
    constraints.push(new_test_second_constraint());
    R1CS::new(constraints, 4, 1).unwrap()
}

/// The constraint `x3 * x4 = x5` over seven wires.
pub fn new_test_first_constraint() -> (r: Constraint)
    ensures
        r.wf(),
        r.a@.len() == 7,
        r.a@ == spec_first_a(),
        r.b@ == spec_first_b(),
        r.c@ == spec_first_c(),
{
    let a: Vec<u64> = vec![0, 0, 0, 1, 0, 0, 0];
    let b: Vec<u64> = vec![0, 0, 0, 0, 1, 0, 0];
    let c: Vec<u64> = vec![0, 0, 0, 0, 0, 1, 0];
    Constraint { a, b, c }
}

/// The constraint `(x1 + x2) * x5 = x6` over seven wires.
pub fn new_test_second_constraint() -> (r: Constraint)
    ensures
        r.wf(),
        r.a@.len() == 7,
        r.a@ == spec_second_a(),
        r.b@ == spec_second_b(),
        r.c@ == spec_second_c(),
{
    let a: Vec<u64> = vec![0, 1, 1, 0, 0, 0, 0];
    let b: Vec<u64> = vec![0, 0, 0, 0, 0, 1, 0];
    let c: Vec<u64> = vec![0, 0, 0, 0, 0, 0, 1];
    Constraint { a, b, c }
}

/// Draws a random square program `v(x)^2 = w(x) + h(x) t(x)` and reports
/// whether the identity balances.
pub fn gen_sap_constraints() -> (ok: bool) {
    let terms: usize = 7;
    let number_of_constraints: usize = 4;

    // the vanishing polynomial of the points 0, 1, 2, 3
    let mut t: Vec<u64> = Vec::new();
    t.push(1u64);
    let mut k: usize = 0;
    while k < number_of_constraints
        invariant
            k <= number_of_constraints,
            number_of_constraints == 4,
            canon_p(t@),
            t@.len() == k + 1,
            t@[k as int] == 1,
        decreases number_of_constraints - k,
    {
        let neg_k: u64 = if k == 0 { 0 } else { MOD_P - (k as u64) };
        let mut lin: Vec<u64> = Vec::new();
        lin.push(neg_k);
        lin.push(1u64);
        let next: Vec<u64> = poly_mul(&t, &lin);
        proof {
            let ti = ints(t@);
            let li = ints(lin@);
            lemma_pmul_len(ti, li);
            lemma_pmul_leading(ti, li);
            assert(ti[k as int] * 1 == ti[k as int]) by (nonlinear_arith);
            assert(coeff_at(ints(next@), k + 1) % (MOD_P as int)
                == coeff_at(pmul(ti, li), k + 1) % (MOD_P as int));
            assert(coeff_at(ints(next@), k + 1) == next@[k + 1] as int);
            lemma_small_mod(1nat, MOD_P as nat);
            lemma_small_mod(next@[k + 1] as nat, MOD_P as nat);
        }
        t = next;
        k = k + 1;
    }

    // random coefficients for the combination
    let mut a: Vec<u64> = Vec::new();
    let mut i: usize = 0;
    while i < terms
        invariant
            i <= terms,
            a@.len() == i,
            canon_p(a@),
        decreases terms - i,
    {
        a.push(sample_fr_elem_zp());
        i = i + 1;
    }

    // random polynomials, one per term plus the constant one
    let mut v_x: Vec<Vec<u64>> = Vec::new();
    let mut i: usize = 0;
    while i < terms + 1
        invariant
            terms == 7,
            i <= terms + 1,
            v_x@.len() == i,
            forall|j: int| 0 <= j < i ==> canon_p((#[trigger] v_x@[j])@)
                && v_x@[j]@.len() <= 4,
        decreases terms + 1 - i,
    {
        let mut coeffs: Vec<u64> = Vec::new();
        let mut j: usize = 0;
        while j < 4
            invariant
                j <= 4,
                coeffs@.len() == j,
                canon_p(coeffs@),
            decreases 4 - j,
        {
            coeffs.push(sample_fr_elem_zp());
            j = j + 1;
        }
        v_x.push(coeffs);
        i = i + 1;
    }

    let v: Vec<u64> = combine(&v_x, &a, Ghost(4int));
    let v_sq: Vec<u64> = poly_mul(&v, &v);
    let w: Vec<u64> = poly_div_rem(&v_sq, &t).0;
    let p_poly: Vec<u64> = poly_sub(&v_sq, &w);
    let h: Vec<u64> = poly_div_rem(&p_poly, &t).0;
    let right: Vec<u64> = poly_add(&w, &poly_mul(&h, &t));
    vec_eq(&v_sq, &right)
}

/// Generates a key, encodes a random message, and reports whether decoding
/// the negated mask half returns it.  It always does: the noise stays far
/// below the decoding bound.
pub fn check_lwe() -> (ok: bool)
    ensures
        ok,
{
    let lwe: LWE = LWE::new(5, MOD_P, MOD_Q, 18447);
    let s: Vec<u64> = lwe.key_gen();
    let m: u64 = sample_fr_elem_zp();
    let ct: (Vec<u64>, u64) = lwe.encode(m, &s);
    let c0: Vec<u64> = ct.0;
    let c1: u64 = ct.1;

    let mut c0_test: Vec<u64> = Vec::new();
    let mut i: usize = 0;
    while i < c0.len()
        invariant
            i <= c0@.len(),
            canon_q(c0@),
            c0_test@.len() == i,
            canon_q(c0_test@),
            forall|j: int| 0 <= j < i ==> #[trigger] (c0_test@[j] as int)
                == (MOD_Q - c0@[j]) % (MOD_Q as int),
        decreases c0@.len() - i,
    {
        c0_test.push(neg_q(c0[i]));
        i = i + 1;
    }

    let decoded: u64 = lwe.decode(&s, &c0_test, c1);
    proof {
        let (a, e) = choose|a: Seq<u64>, e: u64| canon_q(a) && a.len() == 5
            && e <= 18447
            && ints(c0@) == spec_neg_vec(ints(a))
            && c1 == spec_encode_c1(MOD_P as int, ints(a), ints(s@), e as int, m as int);
        assert(ints(c0_test@) =~= spec_neg_vec(ints(c0@)));
        lemma_neg_vec_involution(a);
        assert(ints(c0_test@) =~= ints(a));
        assert(MOD_P * (e as int) + m < MOD_Q) by (nonlinear_arith)
            requires
                e <= 18447,
                m <= 1000000,
        ;
        lemma_lwe_round_trip(ints(a), ints(s@), e as int, m as int);
        assert(decoded == m);
    }
    decoded == m
}

/// Entry-wise equality of two coefficient vectors.
fn vec_eq(a: &Vec<u64>, b: &Vec<u64>) -> (r: bool)
    ensures
        r == (a@ == b@),
{
    if a.len() != b.len() {
        proof {
            assert(a@ != b@);
        }
        return false;
    }
    let mut i: usize = 0;
    while i < a.len()
        invariant
            i <= a@.len(),
            a@.len() == b@.len(),
            forall|j: int| 0 <= j < i ==> #[trigger] a@[j] == b@[j],
        decreases a@.len() - i,
    {
        if a[i] != b[i] {
            proof {
                assert(a@[i as int] != b@[i as int]);
            }
            return false;
        }
        i = i + 1;
    }
    proof {
        assert(a@ =~= b@);
    }
    true
}

} // verus!
