//! The two prime fields of the scheme, with elements held as canonical
//! `u64` representatives.
//!
//! The message field has the Babybear prime `MOD_P = 2^31 - 2^27 + 1`; the
//! encoding field has the Goldilocks prime `MOD_Q = 2^64 - 2^32 + 1`.

use vstd::prelude::*;

verus! {

/// Modulus of the message field (witness values, SAP polynomials).
pub const MOD_P: u64 = 2013265921;

/// Modulus of the encoding field (LWE ciphertext space).
pub const MOD_Q: u64 = 18446744069414584321;

/// An element of the message field: a canonical representative below `MOD_P`.
pub open spec fn is_fp(x: u64) -> bool {
    x < MOD_P
}

/// An element of the encoding field: a canonical representative below `MOD_Q`.
pub open spec fn is_fq(x: u64) -> bool {
    x < MOD_Q
}

/// Addition in the message field.
pub fn add_p(a: u64, b: u64) -> (r: u64)
    requires
        is_fp(a),
        is_fp(b),
    ensures
        is_fp(r),
        r == (a + b) % (MOD_P as int),
{
    (a + b) % MOD_P
}

/// Subtraction in the message field.
pub fn sub_p(a: u64, b: u64) -> (r: u64)
    requires
        is_fp(a),
        is_fp(b),
    ensures
        is_fp(r),
        r == (a + MOD_P - b) % (MOD_P as int),
        r == (a - b) % (MOD_P as int),
{
    proof {
        vstd::arithmetic::div_mod::lemma_mod_multiples_vanish(1, a - b, MOD_P as int);
    }
    (a + MOD_P - b) % MOD_P
}

/// Multiplication in the message field.
pub fn mul_p(a: u64, b: u64) -> (r: u64)
    requires
        is_fp(a),
        is_fp(b),
    ensures
        is_fp(r),
        r == (a * b) % (MOD_P as int),
{
    proof {
        assert(a * b <= (MOD_P - 1) * (MOD_P - 1)) by (nonlinear_arith)
            requires
                a < MOD_P,
                b < MOD_P,
        ;
    }
    (a * b) % MOD_P
}

/// Addition in the encoding field.
pub fn add_q(a: u64, b: u64) -> (r: u64)
    requires
        is_fq(a),
        is_fq(b),
    ensures
        is_fq(r),
        r == (a + b) % (MOD_Q as int),
{
    let wide: u128 = (a as u128 + b as u128) % (MOD_Q as u128);
    wide as u64
}

/// Subtraction in the encoding field.
pub fn sub_q(a: u64, b: u64) -> (r: u64)
    requires
        is_fq(a),
        is_fq(b),
    ensures
        is_fq(r),
        r == (a + MOD_Q - b) % (MOD_Q as int),
{
    let wide: u128 = (a as u128 + MOD_Q as u128 - b as u128) % (MOD_Q as u128);
    wide as u64
}

/// Negation in the encoding field.
pub fn neg_q(a: u64) -> (r: u64)
    requires
        is_fq(a),
    ensures
        is_fq(r),
        r == (MOD_Q - a) % (MOD_Q as int),
{
    (MOD_Q - a) % MOD_Q
}

/// Multiplication in the encoding field.
pub fn mul_q(a: u64, b: u64) -> (r: u64)
    requires
        is_fq(a),
        is_fq(b),
    ensures
        is_fq(r),
        r == (a * b) % (MOD_Q as int),
{
    proof {
        assert((a as u128) * (b as u128) < u128::MAX) by (nonlinear_arith)
            requires
                a < MOD_Q,
                b < MOD_Q,
        ;
    }
    let wide: u128 = ((a as u128) * (b as u128)) % (MOD_Q as u128);
    wide as u64
}

} // verus!
