//! Trusted setup: samples the trapdoor scalars and the LWE secret key, and
//! encodes the SAP evaluations at the secret point into the common reference
//! string.

use vstd::prelude::*;
use vstd::arithmetic::div_mod::{lemma_add_mod_noop, lemma_mul_mod_noop, lemma_mod_twice,
    lemma_small_mod};
use crate::field::{MOD_P, MOD_Q, is_fp, is_fq, add_p, mul_p};
use crate::poly::{ints, canon_p, peval, poly_eval_p};
use crate::lwe::{PK, LWE, canon_q, is_lwe_encoding};
use crate::sap::{SquareArithmeticProgram as SAP, spec_sap_num_vars, spec_rq_size};
use crate::common::sample_fr_elem_zp;

verus! {

/// The common reference string: the SAP, the encoding parameters, and the
/// encoded trapdoor-derived scalars (only the message-carrying halves of the
/// ciphertexts are kept).
#[derive(Clone, Debug)]
pub struct CommonReferenceString {
    pub sap: SAP,
    pub pk: PK,
    pub delta_t_s_2: u64,
    pub beta_t_sk: u64,
    pub delta_si: Vec<u64>,
    pub delta_si_t_sk: Vec<u64>,
    pub delta_wi_beta_vi: Vec<u64>,
}

impl CommonReferenceString {
    /// Structural invariant established by `setup`.
    pub open spec fn wf(&self) -> bool {
        &&& self.sap.wf()
        &&& is_fq(self.delta_t_s_2)
        &&& is_fq(self.beta_t_sk)
        &&& canon_q(self.delta_si@)
        &&& canon_q(self.delta_si_t_sk@)
        &&& canon_q(self.delta_wi_beta_vi@)
        &&& self.delta_si@.len() == spec_rq_size(self.sap.r1cs) + 1
        &&& self.delta_si_t_sk@.len() == spec_rq_size(self.sap.r1cs)
        &&& self.delta_wi_beta_vi@.len()
            == spec_sap_num_vars(self.sap.r1cs) + 1 - self.sap.num_instance_variables
    }
}

/// The target polynomial evaluated at the secret point.
pub open spec fn spec_t_s(sap: SAP, s: u64) -> int {
    peval(ints(sap.target@), s as int) % (MOD_P as int)
}

/// The scalar `delta * w_j(s) + beta * u_j(s)` for witness position `j`.
pub open spec fn spec_dwbv_entry(sap: SAP, delta: u64, beta: u64, s: u64, j: int) -> int {
    (delta * (peval(ints(sap.w_polynomials@[j]@), s as int) % (MOD_P as int))
        + beta * (peval(ints(sap.u_polynomials@[j]@), s as int) % (MOD_P as int)))
        % (MOD_P as int)
}

/// The scalar is the message-carrying half of some LWE encoding of `msg`
/// under the secret key `sk`, with the demonstration parameters that `setup`
/// fixes: dimension 5, message modulus `MOD_P`, noise deviation 18447.
pub open spec fn is_encoding(c1: u64, msg: int, sk: Seq<u64>) -> bool {
    is_lwe_encoding(c1, msg, sk, 5, MOD_P as int, 18447)
}

/// The plain message-field scalars that `setup` encodes into the CRS.
pub struct CrsMessages {
    pub delta_t_s_2: u64,
    pub beta_t_sk: u64,
    pub delta_si: Vec<u64>,
    pub delta_si_t_sk: Vec<u64>,
    pub delta_wi_beta_vi: Vec<u64>,
}

/// Computes the scalars that the setup encodes: `delta * T(s)^2`,
/// `beta * T(s)`, the powers `delta * s^i`, the products
/// `delta * s^i * T(s)`, and `delta * w_j(s) + beta * u_j(s)` for every
/// witness position `j`.
pub fn crs_messages(sap: &SAP, delta: u64, beta: u64, s: u64) -> (r: CrsMessages)
    requires
        sap.wf(),
        is_fp(delta),
        is_fp(beta),
        is_fp(s),
    ensures
        is_fp(r.delta_t_s_2),
        r.delta_t_s_2 == (delta * spec_t_s(*sap, s) * spec_t_s(*sap, s)) % (MOD_P as int),
        is_fp(r.beta_t_sk),
        r.beta_t_sk == (beta * spec_t_s(*sap, s)) % (MOD_P as int),
        r.delta_si@.len() == spec_rq_size(sap.r1cs) + 1,
        canon_p(r.delta_si@),
        forall|i: int| 0 <= i < r.delta_si@.len() ==> #[trigger] (r.delta_si@[i] as int)
            == (delta * vstd::arithmetic::power::pow(s as int, i as nat)) % (MOD_P as int),
        r.delta_si_t_sk@.len() == spec_rq_size(sap.r1cs),
        canon_p(r.delta_si_t_sk@),
        forall|i: int| 0 <= i < r.delta_si_t_sk@.len()
            ==> #[trigger] (r.delta_si_t_sk@[i] as int)
                == (delta * vstd::arithmetic::power::pow(s as int, i as nat) * spec_t_s(*sap, s)) % (MOD_P as int),
        r.delta_wi_beta_vi@.len()
            == spec_sap_num_vars(sap.r1cs) + 1 - sap.num_instance_variables,
        canon_p(r.delta_wi_beta_vi@),
        forall|i: int| 0 <= i < r.delta_wi_beta_vi@.len()
            ==> #[trigger] (r.delta_wi_beta_vi@[i] as int)
                == spec_dwbv_entry(*sap, delta, beta, s,
                    i + sap.num_instance_variables),
{
    let t_s: u64 = poly_eval_p(&sap.target, s);
    let delta_t_s: u64 = mul_p(delta, t_s);
    let delta_t_s_2: u64 = mul_p(delta_t_s, t_s);
    proof {
        lemma_mul_mod_noop(delta * t_s, t_s as int, MOD_P as int);
        lemma_mod_twice(delta * t_s, MOD_P as int);
        lemma_small_mod(t_s as nat, MOD_P as nat);
    }
    let beta_t_sk: u64 = mul_p(beta, t_s);

    let count: usize = sap.target.len();
    let mut delta_si: Vec<u64> = Vec::new();
    let mut cur: u64 = 1;
    let mut i: usize = 0;
    proof {
        vstd::arithmetic::power::lemma_pow0(s as int);
        lemma_small_mod(1nat, MOD_P as nat);
    }
    while i < count
        invariant
            i <= count,
            is_fp(delta),
            is_fp(s),
            is_fp(cur),
            cur == vstd::arithmetic::power::pow(s as int, i as nat) % (MOD_P as int),
            delta_si@.len() == i,
            canon_p(delta_si@),
            forall|t: int| 0 <= t < i ==> #[trigger] (delta_si@[t] as int)
                == (delta * vstd::arithmetic::power::pow(s as int, t as nat)) % (MOD_P as int),
        decreases count - i,
    {
        let entry: u64 = mul_p(delta, cur);
        proof {
            lemma_mul_mod_noop(delta as int, vstd::arithmetic::power::pow(s as int, i as nat), MOD_P as int);
            lemma_mod_twice(vstd::arithmetic::power::pow(s as int, i as nat), MOD_P as int);
            lemma_small_mod(delta as nat, MOD_P as nat);
        }
        delta_si.push(entry);
        let next: u64 = mul_p(cur, s);
        proof {
            lemma_mul_mod_noop(vstd::arithmetic::power::pow(s as int, i as nat), s as int, MOD_P as int);
            lemma_mod_twice(vstd::arithmetic::power::pow(s as int, i as nat), MOD_P as int);
            lemma_small_mod(s as nat, MOD_P as nat);
            vstd::arithmetic::power::lemma_pow_adds(s as int, i as nat, 1nat);
            vstd::arithmetic::power::lemma_pow1(s as int);
        }
        cur = next;
        i = i + 1;
    }

    let mut delta_si_t_sk: Vec<u64> = Vec::new();
    let mut cur2: u64 = 1;
    let mut i: usize = 0;
    proof {
        vstd::arithmetic::power::lemma_pow0(s as int);
        lemma_small_mod(1nat, MOD_P as nat);
    }
    while i < count - 1
        invariant
            i <= count - 1,
            is_fp(delta),
            is_fp(s),
            is_fp(t_s),
            t_s == spec_t_s(*sap, s),
            is_fp(cur2),
            cur2 == vstd::arithmetic::power::pow(s as int, i as nat) % (MOD_P as int),
            delta_si_t_sk@.len() == i,
            canon_p(delta_si_t_sk@),
            forall|t: int| 0 <= t < i ==> #[trigger] (delta_si_t_sk@[t] as int)
                == (delta * vstd::arithmetic::power::pow(s as int, t as nat) * spec_t_s(*sap, s)) % (MOD_P as int),
        decreases count - 1 - i,
    {
        let dsi: u64 = mul_p(delta, cur2);
        let entry: u64 = mul_p(dsi, t_s);
        proof {
            let p = MOD_P as int;
            let pw = vstd::arithmetic::power::pow(s as int, i as nat);
            lemma_mul_mod_noop(delta as int, pw, p);
            lemma_mod_twice(pw, p);
            lemma_small_mod(delta as nat, MOD_P as nat);
            assert(dsi == (delta * pw) % p);
            lemma_mul_mod_noop(delta * pw, t_s as int, p);
            lemma_mod_twice(delta * pw, p);
            lemma_small_mod(t_s as nat, MOD_P as nat);
        }
        delta_si_t_sk.push(entry);
        let next: u64 = mul_p(cur2, s);
        proof {
            lemma_mul_mod_noop(vstd::arithmetic::power::pow(s as int, i as nat), s as int, MOD_P as int);
            lemma_mod_twice(vstd::arithmetic::power::pow(s as int, i as nat), MOD_P as int);
            lemma_small_mod(s as nat, MOD_P as nat);
            vstd::arithmetic::power::lemma_pow_adds(s as int, i as nat, 1nat);
            vstd::arithmetic::power::lemma_pow1(s as int);
        }
        cur2 = next;
        i = i + 1;
    }

    let ninst: usize = sap.num_instance_variables;
    let total: usize = sap.u_polynomials.len();
    let mut delta_wi_beta_vi: Vec<u64> = Vec::new();
    let mut i: usize = 0;
    while i < total - ninst
        invariant
            i <= total - ninst,
            sap.wf(),
            is_fp(delta),
            is_fp(beta),
            is_fp(s),
            ninst == sap.num_instance_variables,
            total == sap.u_polynomials@.len(),
            ninst <= total,
            delta_wi_beta_vi@.len() == i,
            canon_p(delta_wi_beta_vi@),
            forall|t: int| 0 <= t < i ==> #[trigger] (delta_wi_beta_vi@[t] as int)
                == spec_dwbv_entry(*sap, delta, beta, s, t + ninst),
        decreases total - ninst - i,
    {
        let j: usize = ninst + i;
        let w_s: u64 = poly_eval_p(&sap.w_polynomials[j], s);
        let u_s: u64 = poly_eval_p(&sap.u_polynomials[j], s);
        let entry: u64 = add_p(mul_p(delta, w_s), mul_p(beta, u_s));
        proof {
            let p = MOD_P as int;
            lemma_add_mod_noop(delta * w_s, beta * u_s, p);
            lemma_mod_twice(delta * (w_s as int), p);
            lemma_mod_twice(beta * (u_s as int), p);
        }
        delta_wi_beta_vi.push(entry);
        i = i + 1;
    }

    proof {
        assert(count == spec_rq_size(sap.r1cs) + 1);
        assert(total - ninst == spec_sap_num_vars(sap.r1cs) + 1
            - sap.num_instance_variables);
    }
    CrsMessages { delta_t_s_2, beta_t_sk, delta_si, delta_si_t_sk, delta_wi_beta_vi }
}

/// Runs the trusted setup on a SAP: samples the trapdoor `(beta, delta, s)`
/// and the LWE secret key, computes the CRS scalars and encodes them.
/// Returns the verification reference string (the secret key), the CRS and
/// the trapdoor.
pub fn setup(sap: SAP) -> (r: (Vec<u64>, CommonReferenceString, Vec<u64>))
    requires
        sap.wf(),
    ensures
        r.1.wf(),
        r.1.sap == sap,
        r.1.pk.n == 5,
        r.1.pk.p == 7,
        r.1.pk.q == 218,
        r.0@.len() == 5,
        canon_q(r.0@),
        r.2@.len() == 3,
        canon_p(r.2@),
        1 <= r.2@[0] <= 1000000,
        1 <= r.2@[1] <= 1000000,
        1 <= r.2@[2] <= 1000000,
        is_encoding(r.1.delta_t_s_2,
            (r.2@[1] * spec_t_s(sap, r.2@[2]) * spec_t_s(sap, r.2@[2])) % (MOD_P as int),
            r.0@),
        is_encoding(r.1.beta_t_sk, (r.2@[0] * spec_t_s(sap, r.2@[2])) % (MOD_P as int),
            r.0@),
        forall|i: int| 0 <= i < r.1.delta_si@.len() ==> is_encoding(
            #[trigger] r.1.delta_si@[i],
            (r.2@[1] * vstd::arithmetic::power::pow(r.2@[2] as int, i as nat))
                % (MOD_P as int), r.0@),
        forall|i: int| 0 <= i < r.1.delta_si_t_sk@.len() ==> is_encoding(
            #[trigger] r.1.delta_si_t_sk@[i],
            (r.2@[1] * vstd::arithmetic::power::pow(r.2@[2] as int, i as nat)
                * spec_t_s(sap, r.2@[2])) % (MOD_P as int), r.0@),
        forall|i: int| 0 <= i < r.1.delta_wi_beta_vi@.len() ==> is_encoding(
            #[trigger] r.1.delta_wi_beta_vi@[i],
            spec_dwbv_entry(sap, r.2@[1], r.2@[0], r.2@[2],
                i + sap.num_instance_variables), r.0@),
{
    let delta: u64 = sample_fr_elem_zp();
    let beta: u64 = sample_fr_elem_zp();
    let s: u64 = sample_fr_elem_zp();

    let mut td: Vec<u64> = Vec::new();
    td.push(beta);
    td.push(delta);
    td.push(s);

    let pk = PK { n: 5, p: 7, q: 218 };
    let lwe: LWE = LWE::new(5, MOD_P, MOD_Q, 18447);
    let sk: Vec<u64> = lwe.key_gen();
    let vrs: Vec<u64> = sk.clone();

    let msgs: CrsMessages = crs_messages(&sap, delta, beta, s);

    let c_dts2: (Vec<u64>, u64) = lwe.encode(msgs.delta_t_s_2, &sk);
    let delta_t_s_2: u64 = c_dts2.1;
    let c_btsk: (Vec<u64>, u64) = lwe.encode(msgs.beta_t_sk, &sk);
    let beta_t_sk: u64 = c_btsk.1;
    let delta_si: Vec<u64> = encode_all(&lwe, &msgs.delta_si, &sk);
    let delta_si_t_sk: Vec<u64> = encode_all(&lwe, &msgs.delta_si_t_sk, &sk);
    let delta_wi_beta_vi: Vec<u64> = encode_all(&lwe, &msgs.delta_wi_beta_vi, &sk);

    proof {
        assert(td@ =~= seq![beta, delta, s]);
        assert(is_encoding(delta_t_s_2, msgs.delta_t_s_2 as int, sk@));
        assert(is_encoding(beta_t_sk, msgs.beta_t_sk as int, sk@));
        assert forall|i: int| 0 <= i < delta_si@.len() implies is_encoding(
            #[trigger] delta_si@[i],
            (delta * vstd::arithmetic::power::pow(s as int, i as nat)) % (MOD_P as int),
            sk@) by {
            assert(is_lwe_encoding(delta_si@[i], msgs.delta_si@[i] as int, sk@,
                lwe.pk.n as int, lwe.pk.p as int, lwe.std_ as int));
        }
        assert forall|i: int| 0 <= i < delta_si_t_sk@.len() implies is_encoding(
            #[trigger] delta_si_t_sk@[i],
            (delta * vstd::arithmetic::power::pow(s as int, i as nat)
                * spec_t_s(sap, s)) % (MOD_P as int), sk@) by {
            assert(is_lwe_encoding(delta_si_t_sk@[i], msgs.delta_si_t_sk@[i] as int,
                sk@, lwe.pk.n as int, lwe.pk.p as int, lwe.std_ as int));
        }
        assert forall|i: int| 0 <= i < delta_wi_beta_vi@.len() implies is_encoding(
            #[trigger] delta_wi_beta_vi@[i],
            spec_dwbv_entry(sap, delta, beta, s, i + sap.num_instance_variables),
            sk@) by {
            assert(is_lwe_encoding(delta_wi_beta_vi@[i],
                msgs.delta_wi_beta_vi@[i] as int, sk@,
                lwe.pk.n as int, lwe.pk.p as int, lwe.std_ as int));
        }
    }

    let crs = CommonReferenceString {
        sap,
        pk,
        delta_t_s_2,
        beta_t_sk,
        delta_si,
        delta_si_t_sk,
        delta_wi_beta_vi,
    };
    (vrs, crs, td)
}

/// Encodes each scalar of a list under the secret key, keeping only the
/// message-carrying half of each ciphertext.
fn encode_all(lwe: &LWE, msgs: &Vec<u64>, sk: &Vec<u64>) -> (r: Vec<u64>)
    requires
        canon_q(sk@),
        canon_p(msgs@),
    ensures
        r@.len() == msgs@.len(),
        canon_q(r@),
        forall|i: int| 0 <= i < msgs@.len() ==> is_lwe_encoding(#[trigger] r@[i],
            msgs@[i] as int, sk@, lwe.pk.n as int, lwe.pk.p as int, lwe.std_ as int),
{
    let mut r: Vec<u64> = Vec::new();
    let mut i: usize = 0;
    while i < msgs.len()
        invariant
            i <= msgs@.len(),
            canon_q(sk@),
            canon_p(msgs@),
            r@.len() == i,
            canon_q(r@),
            forall|t: int| 0 <= t < i ==> is_lwe_encoding(#[trigger] r@[t],
                msgs@[t] as int, sk@, lwe.pk.n as int, lwe.pk.p as int,
                lwe.std_ as int),
        decreases msgs@.len() - i,
    {
        let c: (Vec<u64>, u64) = lwe.encode(msgs[i], sk);
        let ghost prev = r@;
        r.push(c.1);
        proof {
            assert forall|t: int| 0 <= t < i + 1 implies is_lwe_encoding(
                #[trigger] r@[t], msgs@[t] as int, sk@, lwe.pk.n as int,
                lwe.pk.p as int, lwe.std_ as int) by {
                if t < i {
                    assert(r@[t] == prev[t]);
                    assert(is_lwe_encoding(prev[t], msgs@[t] as int, sk@,
                        lwe.pk.n as int, lwe.pk.p as int, lwe.std_ as int));
                } else {
                    assert(r@[t] == c.1);
                }
            }
        }
        i = i + 1;
    }
    r
}

/// The power `s^deg` in the message field.
pub fn pow(s: u64, deg: usize) -> (res: u64)
    requires
        is_fp(s),
    ensures
        is_fp(res),
        res == vstd::arithmetic::power::pow(s as int, deg as nat) % (MOD_P as int),
{
    let mut res: u64 = 1;
    proof {
        vstd::arithmetic::power::lemma_pow0(s as int);
        lemma_small_mod(1nat, MOD_P as nat);
    }
    if deg == 0 {
        return res;
    }
    let mut i: usize = 0;
    while i < deg
        invariant
            i <= deg,
            is_fp(s),
            is_fp(res),
            res == vstd::arithmetic::power::pow(s as int, i as nat) % (MOD_P as int),
        decreases deg - i,
    {
        let next: u64 = mul_p(res, s);
        proof {
            lemma_mul_mod_noop(vstd::arithmetic::power::pow(s as int, i as nat), s as int, MOD_P as int);
            lemma_mod_twice(vstd::arithmetic::power::pow(s as int, i as nat), MOD_P as int);
            lemma_small_mod(s as nat, MOD_P as nat);
            vstd::arithmetic::power::lemma_pow_adds(s as int, i as nat, 1nat);
            vstd::arithmetic::power::lemma_pow1(s as int);
        }
        res = next;
        i = i + 1;
    }
    res
}

} // verus!
