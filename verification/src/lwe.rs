//! The noisy linear encoding: a scalar from the message field is hidden in
//! an encoding-field pair `(c0, c1)` with `c1 = <a,secret> + p*e + m` and
//! `c0 = -a`, and recovered with the secret key by removing the mask and
//! reducing away the noise term.

use vstd::prelude::*;
use vstd::arithmetic::div_mod::{lemma_add_mod_noop, lemma_mod_twice, lemma_small_mod,
    lemma_mod_multiples_vanish, lemma_fundamental_div_mod};
use rand::Rng;
use crate::field::{MOD_P, MOD_Q, is_fq, add_q, neg_q, sub_q, mul_q};
use crate::poly::{ints, dot, tail};
use crate::common::sample_fr_elem_zq;

verus! {

/// All entries are canonical representatives of the encoding field.
pub open spec fn canon_q(s: Seq<u64>) -> bool {
    forall|i: int| 0 <= i < s.len() ==> is_fq(#[trigger] s[i])
}

/// The negation of a vector, entry by entry in the encoding field.
pub open spec fn spec_neg_vec(a: Seq<int>) -> Seq<int> {
    a.map_values(|x: int| (MOD_Q - x) % (MOD_Q as int))
}

/// The message-carrying half of an encoding.
pub open spec fn spec_encode_c1(p: int, a: Seq<int>, s: Seq<int>, e: int, m: int) -> int {
    (dot(a, s) + p * e + m) % (MOD_Q as int)
}

/// `c1` is the message-carrying half of some encoding of `msg` under the
/// secret key `sk`, for an instance with dimension `n`, message modulus `p`
/// and noise deviation `std`: a mask vector and a noise sample within the
/// instance's bounds exist that produce it.
pub open spec fn is_lwe_encoding(c1: u64, msg: int, sk: Seq<u64>, n: int, p: int,
    std: int) -> bool {
    exists|a: Seq<u64>, e: u64| canon_q(a) && a.len() == n && e <= std
        && c1 == spec_encode_c1(p, ints(a), ints(sk), e as int, msg)
}

/// What decoding computes: the mask is removed in the encoding field and the
/// result is cast down to the message field.
pub open spec fn spec_decode(s: Seq<int>, c0: Seq<int>, c1: int) -> int {
    ((c1 + MOD_Q - dot(c0, s) % (MOD_Q as int)) % (MOD_Q as int)) % (MOD_P as int)
}

/// Public parameter set of the encoding scheme: lattice dimension, message
/// modulus and ciphertext modulus.
#[derive(Clone, Debug)]
pub struct PK {
    pub n: usize,
    pub p: u64,
    pub q: u64,
}

/// An instance of the encoding scheme: the parameters and the derived
/// standard deviation of the noise.
pub struct LWE {
    pub pk: PK,
    pub std_: u64,
}

impl LWE {
    /// Builds an instance; `std_` is the noise deviation, the ciphertext
    /// modulus scaled by the noise rate.
    pub fn new(n: usize, p: u64, q: u64, std_: u64) -> (r: LWE)
        ensures
            r.pk.n == n,
            r.pk.p == p,
            r.pk.q == q,
            r.std_ == std_,
    {
        let pk = PK { n, p, q };
        LWE { pk, std_ }
    }

    /// Samples a secret key: a uniform vector over the encoding field.
    pub fn key_gen(&self) -> (s: Vec<u64>)
        ensures
            s@.len() == self.pk.n,
            canon_q(s@),
    {
        let mut s: Vec<u64> = Vec::new();
        let mut i: usize = 0;
        while i < self.pk.n
            invariant
                i <= self.pk.n,
                s@.len() == i,
                canon_q(s@),
            decreases self.pk.n - i,
        {
            s.push(sample_fr_elem_zq());
            i = i + 1;
        }
        s
    }

    /// Encodes a message under the secret key with a fresh mask vector and a
    /// fresh noise sample.
    pub fn encode(&self, m: u64, s: &Vec<u64>) -> (r: (Vec<u64>, u64))
        requires
            canon_q(s@),
            m < MOD_Q,
        ensures
            r.0@.len() == self.pk.n,
            canon_q(r.0@),
            is_fq(r.1),
            exists|a: Seq<u64>, e: u64| canon_q(a) && a.len() == self.pk.n
                && e <= self.std_
                && ints(r.0@) == spec_neg_vec(ints(a))
                && r.1 == spec_encode_c1(self.pk.p as int, ints(a), ints(s@), e as int,
                    m as int),
            is_lwe_encoding(r.1, m as int, s@, self.pk.n as int, self.pk.p as int,
                self.std_ as int),
    {
        let mut a: Vec<u64> = Vec::new();
        let mut i: usize = 0;
        while i < self.pk.n
            invariant
                i <= self.pk.n,
                a@.len() == i,
                canon_q(a@),
            decreases self.pk.n - i,
        {
            a.push(sample_fr_elem_zq());
            i = i + 1;
        }
        let e: u64 = discrete_gaussian(self.std_);
        let r: (Vec<u64>, u64) = self.encode_with(m, s, &a, e);
        proof {
            assert(canon_q(a@) && a@.len() == self.pk.n && e <= self.std_
                && ints(r.0@) == spec_neg_vec(ints(a@))
                && r.1 == spec_encode_c1(self.pk.p as int, ints(a@), ints(s@), e as int,
                    m as int));
            assert(is_lwe_encoding(r.1, m as int, s@, self.pk.n as int,
                self.pk.p as int, self.std_ as int));
        }
        r
    }

    /// The deterministic core of encoding: the mask vector and the noise are
    /// explicit arguments.
    pub fn encode_with(&self, m: u64, s: &Vec<u64>, a: &Vec<u64>, e: u64)
        -> (r: (Vec<u64>, u64))
        requires
            canon_q(s@),
            canon_q(a@),
            m < MOD_Q,
        ensures
            r.0@.len() == a@.len(),
            canon_q(r.0@),
            is_fq(r.1),
            ints(r.0@) == spec_neg_vec(ints(a@)),
            r.1 == spec_encode_c1(self.pk.p as int, ints(a@), ints(s@), e as int, m as int),
    {
        let temp: u64 = inner_product(a, s);
        let pe: u64 = mul_q_wide(self.pk.p, e);
        let temp1: u64 = add_q(temp, pe);
        let temp2: u64 = add_q(temp1, m);
        proof {
            let d = dot(ints(a@), ints(s@));
            let q = MOD_Q as int;
            let pei = (self.pk.p as int) * (e as int);
            lemma_add_mod_noop(d, pei, q);
            lemma_mod_twice(d, q);
            lemma_mod_twice(pei, q);
            assert(temp1 == (d + pei) % q);
            lemma_add_mod_noop(d + pei, m as int, q);
            lemma_mod_twice(d + pei, q);
            lemma_small_mod(m as nat, MOD_Q as nat);
            assert(temp2 == (d + pei + m) % q);
        }
        let mut neg_c0: Vec<u64> = Vec::new();
        let mut i: usize = 0;
        while i < a.len()
            invariant
                i <= a@.len(),
                canon_q(a@),
                neg_c0@.len() == i,
                canon_q(neg_c0@),
                forall|j: int| 0 <= j < i ==> #[trigger] (neg_c0@[j] as int)
                    == (MOD_Q - a@[j]) % (MOD_Q as int),
            decreases a@.len() - i,
        {
            neg_c0.push(neg_q(a[i]));
            i = i + 1;
        }
        proof {
            assert(ints(neg_c0@) =~= spec_neg_vec(ints(a@)));
        }
        (neg_c0, temp2)
    }

    /// Decodes a pair under the secret key: removes the mask term in the
    /// encoding field and casts the result down to the message field.
    pub fn decode(&self, s: &Vec<u64>, c0: &Vec<u64>, c1: u64) -> (r: u64)
        requires
            canon_q(s@),
            canon_q(c0@),
            is_fq(c1),
        ensures
            r == spec_decode(ints(s@), ints(c0@), c1 as int),
            r < MOD_P,
    {
        let temp: u64 = inner_product(c0, s);
        let diff: u64 = sub_q(c1, temp);
        diff % MOD_P
    }
}

/// Inner product of two vectors over the encoding field, truncated to the
/// shorter one.
pub fn inner_product(v1: &Vec<u64>, v2: &Vec<u64>) -> (r: u64)
    requires
        canon_q(v1@),
        canon_q(v2@),
    ensures
        is_fq(r),
        r == dot(ints(v1@), ints(v2@)) % (MOD_Q as int),
{
    let n: usize = if v1.len() <= v2.len() { v1.len() } else { v2.len() };
    let mut acc: u64 = 0;
    let mut i: usize = n;
    proof {
        lemma_small_mod(0nat, MOD_Q as nat);
        lemma_dot_skip_zero_q(ints(v1@), ints(v2@), n as int);
    }
    while i > 0
        invariant
            i <= n,
            n == if v1@.len() <= v2@.len() { v1@.len() } else { v2@.len() },
            canon_q(v1@),
            canon_q(v2@),
            is_fq(acc),
            acc == dot(ints(v1@).skip(i as int), ints(v2@).skip(i as int))
                % (MOD_Q as int),
        decreases i,
    {
        i = i - 1;
        let m: u64 = mul_q(v1[i], v2[i]);
        let next: u64 = add_q(m, acc);
        proof {
            let s1 = ints(v1@).skip(i as int);
            let s2 = ints(v2@).skip(i as int);
            assert(tail(s1) =~= ints(v1@).skip(i as int + 1));
            assert(tail(s2) =~= ints(v2@).skip(i as int + 1));
            assert(dot(s1, s2) == v1@[i as int] * v2@[i as int] + dot(tail(s1), tail(s2)));
            let prod = v1@[i as int] * v2@[i as int];
            let rest = dot(tail(s1), tail(s2));
            lemma_add_mod_noop(prod, rest, MOD_Q as int);
            lemma_mod_twice(prod, MOD_Q as int);
            lemma_mod_twice(rest, MOD_Q as int);
        }
        acc = next;
    }
    proof {
        assert(ints(v1@).skip(0) =~= ints(v1@));
        assert(ints(v2@).skip(0) =~= ints(v2@));
    }
    acc
}

/// The inner product of suffixes past the shorter vector's length is zero.
proof fn lemma_dot_skip_zero_q(a: Seq<int>, b: Seq<int>, n: int)
    requires
        0 <= n,
        n == if a.len() <= b.len() { a.len() as int } else { b.len() as int },
    ensures
        dot(a.skip(n), b.skip(n)) == 0,
{
    if a.len() <= b.len() {
        assert(a.skip(n) =~= Seq::<int>::empty());
    } else {
        assert(b.skip(n) =~= Seq::<int>::empty());
    }
}

/// Product of two arbitrary `u64` values reduced into the encoding field.
fn mul_q_wide(a: u64, b: u64) -> (r: u64)
    ensures
        is_fq(r),
        r == (a * b) % (MOD_Q as int),
{
    proof {
        assert((a as u128) * (b as u128) < u128::MAX) by (nonlinear_arith);
    }
    let wide: u128 = ((a as u128) * (b as u128)) % (MOD_Q as u128);
    wide as u64
}

/// Relies on `rand::Rng::gen_range` over `rand::thread_rng`: the noise
/// sample lies between zero and the standard deviation, inclusive.
#[verifier::external_body]
fn discrete_gaussian(std_: u64) -> (e: u64)
    ensures
        e <= std_,
{
    let mut rng = rand::thread_rng();
    rng.gen_range(0..=std_)
}

/// Round trip of the encoding: decoding the negated mask half together with
/// the message half returns the message, as long as the lifted noise term
/// `p * e + m` stays below the ciphertext modulus.  The message modulus of
/// the instance must be the message-field modulus, and `c0` must be negated
/// before decoding because encoding negates the mask vector.
pub proof fn lemma_lwe_round_trip(a: Seq<int>, s: Seq<int>, e: int, m: int)
    requires
        0 <= m < MOD_P,
        0 <= e,
        MOD_P * e + m < MOD_Q,
    ensures
        spec_decode(s, a, spec_encode_c1(MOD_P as int, a, s, e, m)) == m,
{
    let q = MOD_Q as int;
    let p = MOD_P as int;
    let d = dot(a, s);
    let c1 = (d + p * e + m) % q;
    let dq = d % q;
    lemma_add_mod_noop(c1, q - dq, q);
    lemma_add_mod_noop(d + p * e + m, q - dq, q);
    lemma_mod_twice(d + p * e + m, q);
    lemma_mod_twice(q - dq, q);
    assert((c1 + (q - dq)) % q == ((d + p * e + m) + (q - dq)) % q);
    lemma_fundamental_div_mod(d, q);
    assert(d == q * (d / q) + dq);
    assert((d + p * e + m) + (q - dq) == q * (1 + d / q) + (p * e + m)) by {
        assert(q * (1 + d / q) == q + q * (d / q)) by (nonlinear_arith);
    }
    lemma_mod_multiples_vanish(1 + d / q, p * e + m, q);
    lemma_small_mod((p * e + m) as nat, MOD_Q as nat);
    assert((c1 + q - dq) % q == p * e + m);
    lemma_mod_multiples_vanish(e, m, p);
    lemma_small_mod(m as nat, MOD_P as nat);
    assert(p * e == e * p) by (nonlinear_arith);
}

/// Negating every entry of an already-negated canonical vector gives the
/// vector back.
pub proof fn lemma_neg_vec_involution(a: Seq<u64>)
    requires
        canon_q(a),
    ensures
        spec_neg_vec(spec_neg_vec(ints(a))) =~= ints(a),
{
    assert forall|i: int| 0 <= i < a.len() implies
        spec_neg_vec(spec_neg_vec(ints(a)))[i] == ints(a)[i] by {
        let q = MOD_Q as int;
        let x = a[i] as int;
        let y = (q - x) % q;
        if x == 0 {
            lemma_mod_multiples_vanish(1, 0, q);
            assert(y == 0);
            lemma_mod_multiples_vanish(1, 0, q);
        } else {
            lemma_small_mod((q - x) as nat, MOD_Q as nat);
            assert(y == q - x);
            lemma_small_mod(x as nat, MOD_Q as nat);
        }
    }
}

} // verus!
