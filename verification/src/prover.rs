//! The prover: combines CRS scalars with the SAP evaluation of the full
//! assignment into the two proof scalars `(A, B)`.

use vstd::prelude::*;
use vstd::arithmetic::div_mod::{lemma_add_mod_noop, lemma_mul_mod_noop, lemma_mod_twice,
    lemma_small_mod};
use crate::field::{MOD_Q, is_fp, is_fq, add_q, mul_q};
use crate::poly::{ints, canon_p, dot, pcong, pmul, pnorm, lemma_canon_cong_is_pnorm};
use crate::lwe::{canon_q, inner_product};
use crate::sap::{spec_sap_num_vars, spec_rq_size, spec_u_poly, spec_p_poly, EvaluationError,
    combine};
use crate::setup::CommonReferenceString;
use crate::common::sample_fr_elem_zp;

verus! {

/// A proof scalar.
pub struct Proof {
    pub v: u64,
}

/// The deterministic `A` component: `sum delta_si[i] * T_i` plus
/// `sum delta_si[i] * U_i` over the coefficients of the target and of the
/// combined `U` polynomial.
pub open spec fn spec_a_proof(crs: CommonReferenceString, u: Seq<u64>, w: Seq<u64>) -> int {
    (dot(ints(crs.delta_si@), ints(crs.sap.target@))
        + dot(ints(crs.delta_si@), pnorm(spec_u_poly(crs.sap, ints(u + w)))))
        % (MOD_Q as int)
}

/// The `B` component for mask scalar `r` and cofactor coefficients `h`:
/// `f(w) + g(r) + sum delta_si[i] * h[i]`.
pub open spec fn spec_b_proof(crs: CommonReferenceString, u: Seq<u64>, w: Seq<u64>,
    r: u64, h: Seq<int>) -> int {
    (dot(ints(w), ints(crs.delta_wi_beta_vi@))
        + r * r * crs.delta_t_s_2
        + 2 * r * dot(ints(crs.delta_si_t_sk@), pnorm(spec_u_poly(crs.sap, ints(u + w))))
        + r * crs.beta_t_sk
        + dot(ints(crs.delta_si@), h)) % (MOD_Q as int)
}

/// The instance length the CRS expects: its instance variables minus the
/// constant wire.
pub open spec fn spec_u_len(crs: CommonReferenceString) -> int {
    crs.sap.num_instance_variables - 1
}

/// The witness length the CRS expects: the remaining SAP variables.
pub open spec fn spec_w_len(crs: CommonReferenceString) -> int {
    spec_sap_num_vars(crs.sap.r1cs) + 1 - crs.sap.num_instance_variables
}

/// Builds a proof with a fresh random mask scalar.
pub fn prove(crs: CommonReferenceString, u: Vec<u64>, w: Vec<u64>)
    -> (res: Result<(u64, u64), EvaluationError>)
    requires
        crs.wf(),
        canon_p(u@),
        canon_p(w@),
    ensures
        match res {
            Ok(pr) => {
                &&& u@.len() == spec_u_len(crs)
                &&& w@.len() == spec_w_len(crs)
                &&& is_fq(pr.0) && is_fq(pr.1)
                &&& pr.0 == spec_a_proof(crs, u@, w@)
                &&& exists|r: u64, h: Seq<u64>| is_fq(r) && canon_p(h)
                    && h.len() < spec_rq_size(crs.sap.r1cs)
                    && pcong(spec_p_poly(crs.sap, ints(u@ + w@)),
                        pmul(ints(h), ints(crs.sap.target@)))
                    && pr.1 == spec_b_proof(crs, u@, w@, r, ints(h))
            },
            Err(EvaluationError::LengthMismatch) => u@.len() != spec_u_len(crs)
                || w@.len() != spec_w_len(crs),
            Err(EvaluationError::InexactPolynomialDivision) => {
                &&& u@.len() == spec_u_len(crs)
                &&& w@.len() == spec_w_len(crs)
                &&& forall|h: Seq<int>| !pcong(spec_p_poly(crs.sap, ints(u@ + w@)),
                    pmul(h, ints(crs.sap.target@)))
            },
        },
{
    let r: u64 = sample_fr_elem_zp();
    let res: Result<(u64, u64), EvaluationError> = prove_with(&crs, &u, &w, r);
    proof {
        if let Ok(pr) = res {
            let h = choose|h: Seq<u64>| canon_p(h)
                && h.len() < spec_rq_size(crs.sap.r1cs)
                && pcong(spec_p_poly(crs.sap, ints(u@ + w@)),
                    pmul(ints(h), ints(crs.sap.target@)))
                && pr.1 == spec_b_proof(crs, u@, w@, r, ints(h));
            assert(is_fq(r) && canon_p(h)
                && h.len() < spec_rq_size(crs.sap.r1cs)
                && pcong(spec_p_poly(crs.sap, ints(u@ + w@)),
                    pmul(ints(h), ints(crs.sap.target@)))
                && pr.1 == spec_b_proof(crs, u@, w@, r, ints(h)));
        }
    }
    res
}

/// The deterministic core of the prover: the mask scalar is an explicit
/// argument.
pub fn prove_with(crs: &CommonReferenceString, u: &Vec<u64>, w: &Vec<u64>, r: u64)
    -> (res: Result<(u64, u64), EvaluationError>)
    requires
        crs.wf(),
        canon_p(u@),
        canon_p(w@),
        is_fq(r),
    ensures
        match res {
            Ok(pr) => {
                &&& u@.len() == spec_u_len(*crs)
                &&& w@.len() == spec_w_len(*crs)
                &&& is_fq(pr.0) && is_fq(pr.1)
                &&& pr.0 == spec_a_proof(*crs, u@, w@)
                &&& exists|h: Seq<u64>| canon_p(h)
                    && h.len() < spec_rq_size(crs.sap.r1cs)
                    && pcong(spec_p_poly(crs.sap, ints(u@ + w@)),
                        pmul(ints(h), ints(crs.sap.target@)))
                    && pr.1 == spec_b_proof(*crs, u@, w@, r, ints(h))
            },
            Err(EvaluationError::LengthMismatch) => u@.len() != spec_u_len(*crs)
                || w@.len() != spec_w_len(*crs),
            Err(EvaluationError::InexactPolynomialDivision) => {
                &&& u@.len() == spec_u_len(*crs)
                &&& w@.len() == spec_w_len(*crs)
                &&& forall|h: Seq<int>| !pcong(spec_p_poly(crs.sap, ints(u@ + w@)),
                    pmul(h, ints(crs.sap.target@)))
            },
        },
{
    let ninst: usize = crs.sap.num_instance_variables;
    let total: usize = crs.sap.u_polynomials.len();
    if u.len() != ninst - 1 || w.len() != total - ninst {
        return Err(EvaluationError::LengthMismatch);
    }

    let mut full_instance: Vec<u64> = Vec::new();
    let mut i: usize = 0;
    while i < u.len()
        invariant
            i <= u@.len(),
            full_instance@ =~= u@.take(i as int),
        decreases u@.len() - i,
    {
        full_instance.push(u[i]);
        i = i + 1;
    }
    let mut i: usize = 0;
    while i < w.len()
        invariant
            i <= w@.len(),
            full_instance@ =~= u@ + w@.take(i as int),
        decreases w@.len() - i,
    {
        full_instance.push(w[i]);
        i = i + 1;
    }
    proof {
        assert(full_instance@ =~= u@ + w@);
        assert(canon_p(full_instance@));
    }

    let ghost rq = spec_rq_size(crs.sap.r1cs);
    let u_x: Vec<u64> = combine(&crs.sap.u_polynomials, &full_instance, Ghost(rq));

    let h: Vec<u64> = match crs.sap.h_polinomial(&full_instance) {
        Ok(h) => h,
        Err(e) => {
            return Err(e);
        },
    };

    // f(w): the witness values against the delta_wi_beta_vi scalars
    proof {
        assert(canon_q(w@)) by {
            assert forall|j: int| 0 <= j < w@.len() implies is_fq(#[trigger] w@[j]) by {
                assert(is_fp(w@[j]));
            }
        }
        assert(canon_q(u_x@)) by {
            assert forall|j: int| 0 <= j < u_x@.len() implies is_fq(#[trigger] u_x@[j]) by {
                assert(is_fp(u_x@[j]));
            }
        }
        assert(canon_q(h@)) by {
            assert forall|j: int| 0 <= j < h@.len() implies is_fq(#[trigger] h@[j]) by {
                assert(is_fp(h@[j]));
            }
        }
        assert(canon_q(crs.sap.target@)) by {
            assert forall|j: int| 0 <= j < crs.sap.target@.len() implies
                is_fq(#[trigger] crs.sap.target@[j]) by {
                assert(is_fp(crs.sap.target@[j]));
            }
        }
    }
    let f_w: u64 = inner_product(w, &crs.delta_wi_beta_vi);

    // g(r): the mask polynomial over the encoded trapdoor scalars
    let part: u64 = inner_product(&crs.delta_si_t_sk, &u_x);
    let r2: u64 = mul_q(r, r);
    let term1: u64 = mul_q(r2, crs.delta_t_s_2);
    let two_r: u64 = mul_q(2, r);
    let term2: u64 = mul_q(two_r, part);
    let term3: u64 = mul_q(r, crs.beta_t_sk);
    let g_r: u64 = add_q(add_q(term1, term2), term3);

    // A: the target and U coefficients against the delta_si scalars
    let delta_v_s: u64 = inner_product(&crs.delta_si, &u_x);
    let delta_t_s: u64 = inner_product(&crs.delta_si, &crs.sap.target);
    let a_proof: u64 = add_q(delta_t_s, delta_v_s);

    // B: f(w) + g(r) + the cofactor coefficients against the delta_si scalars
    let delta_t_s_h_s: u64 = inner_product(&crs.delta_si, &h);
    let b_proof: u64 = add_q(add_q(f_w, g_r), delta_t_s_h_s);

    proof {
        let q = MOD_Q as int;
        let uspec = spec_u_poly(crs.sap, ints(full_instance@));
        lemma_canon_cong_is_pnorm(u_x@, uspec);
        assert(ints(u_x@) == pnorm(uspec));

        // A
        let dt = dot(ints(crs.delta_si@), ints(crs.sap.target@));
        let du = dot(ints(crs.delta_si@), ints(u_x@));
        lemma_add_mod_noop(dt, du, q);
        lemma_mod_twice(dt, q);
        lemma_mod_twice(du, q);
        assert(a_proof == (dt + du) % q);

        // g(r)
        let pt = dot(ints(crs.delta_si_t_sk@), ints(u_x@));
        assert(part == pt % q);
        lemma_mul_mod_noop(r as int, r as int, q);
        lemma_mul_mod_noop(r * r, crs.delta_t_s_2 as int, q);
        lemma_mod_twice(r * r, q);
        lemma_small_mod(crs.delta_t_s_2 as nat, MOD_Q as nat);
        lemma_small_mod(r as nat, MOD_Q as nat);
        assert(term1 == (r * r * crs.delta_t_s_2) % q);
        lemma_small_mod(2nat, MOD_Q as nat);
        assert(two_r == (2 * r) % q);
        lemma_mul_mod_noop(2 * r, pt, q);
        lemma_mod_twice(2 * r, q);
        lemma_mod_twice(pt, q);
        assert(term2 == (2 * r * pt) % q);
        assert(term3 == (r * crs.beta_t_sk) % q);
        lemma_add_mod_noop(r * r * crs.delta_t_s_2, 2 * r * pt, q);
        lemma_mod_twice(r * r * crs.delta_t_s_2, q);
        lemma_mod_twice(2 * r * pt, q);
        lemma_add_mod_noop(r * r * crs.delta_t_s_2 + 2 * r * pt, r * crs.beta_t_sk, q);
        lemma_mod_twice(r * r * crs.delta_t_s_2 + 2 * r * pt, q);
        lemma_mod_twice(r * crs.beta_t_sk, q);
        assert(g_r == (r * r * crs.delta_t_s_2 + 2 * r * pt + r * crs.beta_t_sk) % q);

        // B
        let fint = dot(ints(w@), ints(crs.delta_wi_beta_vi@));
        let gint = r * r * crs.delta_t_s_2 + 2 * r * pt + r * crs.beta_t_sk;
        let dh = dot(ints(crs.delta_si@), ints(h@));
        lemma_add_mod_noop(fint, gint, q);
        lemma_mod_twice(fint, q);
        lemma_mod_twice(gint, q);
        lemma_add_mod_noop(fint + gint, dh, q);
        lemma_mod_twice(fint + gint, q);
        lemma_mod_twice(dh, q);
        assert(b_proof == (fint + gint + dh) % q);
        assert(b_proof == spec_b_proof(*crs, u@, w@, r, ints(h@)));

        assert(canon_p(h@) && h@.len() < spec_rq_size(crs.sap.r1cs)
            && pcong(spec_p_poly(crs.sap, ints(u@ + w@)),
                pmul(ints(h@), ints(crs.sap.target@)))
            && b_proof == spec_b_proof(*crs, u@, w@, r, ints(h@)));
    }
    Ok((a_proof, b_proof))
}

} // verus!
