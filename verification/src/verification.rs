//! The verifier: recombines the public instance with CRS scalars and checks
//! the single quadratic equation `A * (A + beta) == delta * (B + w_plus_u)`
//! over the encoding field.

use vstd::prelude::*;
use vstd::arithmetic::div_mod::{lemma_add_mod_noop, lemma_mul_mod_noop, lemma_mod_twice,
    lemma_small_mod};
use crate::field::{MOD_Q, is_fp, is_fq, add_q, mul_q};
use crate::poly::{ints, canon_p, dot};
use crate::lwe::{canon_q, inner_product};
use crate::setup::CommonReferenceString;

verus! {

/// The verification equation: `A * (A + beta)` equals
/// `delta * (B + sum u_i * delta_wi_beta_vi[i])` in the encoding field.
pub open spec fn spec_verify(a_proof: u64, b_proof: u64, u: Seq<u64>,
    crs: CommonReferenceString, beta: u64, delta: u64) -> bool {
    (a_proof * (a_proof + beta)) % (MOD_Q as int)
        == (delta * (b_proof + dot(ints(u), ints(crs.delta_wi_beta_vi@))))
            % (MOD_Q as int)
}

/// Checks a proof `(A, B)` against the public instance and the trapdoor
/// scalars `beta` and `delta`.
pub fn verify(a_proof: u64, b_proof: u64, u: Vec<u64>, crs: CommonReferenceString,
    beta: u64, delta: u64) -> (r: bool)
    requires
        is_fq(a_proof),
        is_fq(b_proof),
        canon_p(u@),
        is_fp(beta),
        is_fp(delta),
        crs.wf(),
        u@.len() <= crs.delta_wi_beta_vi@.len(),
    ensures
        r == spec_verify(a_proof, b_proof, u@, crs, beta, delta),
{
    proof {
        assert(canon_q(u@)) by {
            assert forall|j: int| 0 <= j < u@.len() implies is_fq(#[trigger] u@[j]) by {
                assert(is_fp(u@[j]));
            }
        }
    }
    let w_plus_u: u64 = inner_product(&u, &crs.delta_wi_beta_vi);
    let left: u64 = mul_q(a_proof, add_q(a_proof, beta));
    let right: u64 = mul_q(delta, add_q(b_proof, w_plus_u));
    proof {
        let q = MOD_Q as int;
        let wu = dot(ints(u@), ints(crs.delta_wi_beta_vi@));
        lemma_mul_mod_noop(a_proof as int, a_proof + beta, q);
        lemma_mod_twice(a_proof + beta, q);
        lemma_small_mod(a_proof as nat, MOD_Q as nat);
        assert(left == (a_proof * (a_proof + beta)) % q);
        lemma_add_mod_noop(b_proof as int, wu, q);
        lemma_small_mod(b_proof as nat, MOD_Q as nat);
        lemma_mod_twice(wu, q);
        lemma_mul_mod_noop(delta as int, b_proof + wu, q);
        lemma_mod_twice(b_proof + wu, q);
        lemma_small_mod(delta as nat, MOD_Q as nat);
        assert(right == (delta * (b_proof + wu)) % q);
    }
    if left == right {
        return true;
    }
    false
}

} // verus!
