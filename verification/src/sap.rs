//! Square arithmetic programs and the reduction from R1CS.
//!
//! The reduction splits every multiplicative constraint
//! `<a,x> * <b,x> = <c,x>` into two square constraints
//! `(<a+b,x>)^2 = 4<c,x> + s'` and `(<a-b,x>)^2 = s'` with a fresh slack
//! variable `s'`, and adds a block that pins the duplicated instance
//! variables with `(x_i + 1)^2 = 4 x_i + s''` and `(x_i - 1)^2 = s''`.
//! Each row of the two resulting coefficient matrices is then interpolated
//! over the points `0, 1, 2, ...`, one polynomial per witness position, and
//! the target polynomial vanishes exactly on those points.

use vstd::prelude::*;
use vstd::arithmetic::div_mod::{lemma_add_mod_noop, lemma_mul_mod_noop, lemma_mod_twice,
    lemma_small_mod, lemma_mod_multiples_vanish, lemma_sub_mod_noop};
use crate::field::{MOD_P, is_fp, add_p, sub_p, mul_p};
use crate::poly::{ints, canon_p, coeff_at, tail, peval, pmul, padd, psub, pscale, pcong,
    dot, ssum, psum,
    poly_add, poly_sub, poly_scale, poly_mul, poly_is_zero,
    lemma_peval_cong, lemma_peval_pmul, lemma_pmul_len, lemma_pmul_leading,
    lemma_pcong_trans, lemma_padd_cong, lemma_pmul_cong, lemma_psub_cong,
    lemma_padd_zero_right, lemma_canon_cong_is_pnorm,
    lemma_peval_padd, lemma_peval_pscale, lemma_peval_psub,
    lemma_ssum_eq_psum, lemma_ssum_shift, lemma_ssum_cong, lemma_ssum_is_dot,
    lemma_dot_padd, lemma_dot_psub, lemma_dot_ext, lemma_dot_spike, lemma_dot_pscale,
    lemma_dot_prefix_agree};
use crate::r1cs::R1CS;
use crate::utils::interpolate;

verus! {

/// Why a SAP could not be built.
#[derive(Debug, PartialEq, Eq, Structural)]
pub enum CreationError {
    PolynomialVectorsSizeMismatch,
}

/// Why evaluating a SAP on an assignment failed.
#[derive(Debug, PartialEq, Eq, Structural)]
pub enum EvaluationError {
    /// The assignment length does not match the number of SAP variables.
    LengthMismatch,
    /// The cofactor division left a remainder: the assignment does not
    /// satisfy the program.
    InexactPolynomialDivision,
}

/// Number of SAP variables beyond the constant wire: one slack per original
/// constraint, plus a duplicated variable and a slack per instance variable.
pub open spec fn spec_sap_num_vars(r: R1CS) -> int {
    r.constraints@.len() + 2 * r.number_of_inputs
        + (r.spec_witness_size() - 1 - r.number_of_inputs)
}

/// Number of interpolation points: two per original constraint, two per
/// instance variable, and one for the constant wire.
pub open spec fn spec_rq_size(r: R1CS) -> int {
    2 * r.constraints@.len() + 2 * r.number_of_inputs + 1
}

/// First slack index for the constraint block.
pub open spec fn spec_extra_var_offset(r: R1CS) -> int {
    r.spec_witness_size()
}

/// First slack index for the instance block.
pub open spec fn spec_extra_var_offset2(r: R1CS) -> int {
    r.number_of_inputs + (r.spec_witness_size() - 1 - r.number_of_inputs)
        + r.constraints@.len()
}

/// Entry `a[j]` of constraint `i`, `0` past the witness size.
pub open spec fn mat_a(r: R1CS, i: int, j: int) -> int {
    if 0 <= j < r.spec_witness_size() {
        r.constraints@[i].a@[j] as int
    } else {
        0
    }
}

/// Entry `b[j]` of constraint `i`, `0` past the witness size.
pub open spec fn mat_b(r: R1CS, i: int, j: int) -> int {
    if 0 <= j < r.spec_witness_size() {
        r.constraints@[i].b@[j] as int
    } else {
        0
    }
}

/// Entry `c[j]` of constraint `i`, `0` past the witness size.
pub open spec fn mat_c(r: R1CS, i: int, j: int) -> int {
    if 0 <= j < r.spec_witness_size() {
        r.constraints@[i].c@[j] as int
    } else {
        0
    }
}

pub open spec fn b2i(c: bool) -> int {
    if c {
        1
    } else {
        0
    }
}

/// Coefficient of witness position `j` in the `U`-role matrix at
/// interpolation point `k`.
pub open spec fn u_entry(r: R1CS, j: int, k: int) -> int {
    let m = r.constraints@.len() as int;
    if k < 2 * m {
        let i = k / 2;
        if k % 2 == 0 {
            mat_a(r, i, j) + mat_b(r, i, j)
        } else {
            mat_a(r, i, j) - mat_b(r, i, j)
        }
    } else if k == 2 * m {
        b2i(j == 0)
    } else {
        let o = k - 2 * m;
        if o % 2 == 1 {
            b2i(j == (o + 1) / 2) + b2i(j == 0)
        } else {
            b2i(j == o / 2) - b2i(j == 0)
        }
    }
}

/// Coefficient of witness position `j` in the `W`-role matrix at
/// interpolation point `k`.
pub open spec fn w_entry(r: R1CS, j: int, k: int) -> int {
    let m = r.constraints@.len() as int;
    if k < 2 * m {
        let i = k / 2;
        if k % 2 == 0 {
            4 * mat_c(r, i, j) + b2i(j == spec_extra_var_offset(r) + i)
        } else {
            b2i(j == spec_extra_var_offset(r) + i)
        }
    } else if k == 2 * m {
        b2i(j == 0)
    } else {
        let o = k - 2 * m;
        if o % 2 == 1 {
            4 * b2i(j == (o + 1) / 2) + b2i(j == spec_extra_var_offset2(r) + (o + 1) / 2)
        } else {
            b2i(j == spec_extra_var_offset2(r) + o / 2)
        }
    }
}

/// Linear combination `polys[0] + sum cs[t] * polys[t + 1]` of the first
/// `n` assignment values.
pub open spec fn lincomb(polys: Seq<Seq<int>>, cs: Seq<int>, n: int) -> Seq<int>
    decreases n,
{
    if n <= 0 {
        polys[0]
    } else {
        padd(lincomb(polys, cs, n - 1), pscale(cs[n - 1], polys[n]))
    }
}

/// The combined `U` polynomial of a full assignment.
pub open spec fn spec_u_poly(sap: SquareArithmeticProgram, cs: Seq<int>) -> Seq<int> {
    lincomb(rows_ints(sap.u_polynomials@), cs, cs.len() as int)
}

/// The combined `W` polynomial of a full assignment.
pub open spec fn spec_w_poly(sap: SquareArithmeticProgram, cs: Seq<int>) -> Seq<int> {
    lincomb(rows_ints(sap.w_polynomials@), cs, cs.len() as int)
}

/// `U^2 - W` for a full assignment.
pub open spec fn spec_p_poly(sap: SquareArithmeticProgram, cs: Seq<int>) -> Seq<int> {
    psub(pmul(spec_u_poly(sap, cs), spec_u_poly(sap, cs)), spec_w_poly(sap, cs))
}

/// The integer values of a list of coefficient vectors.
pub open spec fn rows_ints(v: Seq<Vec<u64>>) -> Seq<Seq<int>> {
    v.map_values(|row: Vec<u64>| ints(row@))
}

/// A square arithmetic program: one `u` and one `w` polynomial per witness
/// position, the target polynomial, and the source R1CS.
#[derive(Clone, Debug)]
pub struct SquareArithmeticProgram {
    /// Instance variables of the underlying R1CS, the leading `1` included.
    pub num_instance_variables: usize,
    /// Private variables of the underlying R1CS.
    pub num_r1cs_witness_variables: usize,
    /// Constraints of the underlying R1CS.
    pub num_r1cs_constraints: usize,
    pub u_polynomials: Vec<Vec<u64>>,
    pub w_polynomials: Vec<Vec<u64>>,
    pub target: Vec<u64>,
    pub r1cs: R1CS,
}

impl SquareArithmeticProgram {
    /// Structural invariant established by `r1cs_to_sap`.
    pub open spec fn wf(&self) -> bool {
        &&& self.r1cs.wf()
        &&& self.num_instance_variables == self.r1cs.number_of_inputs + 1
        &&& self.num_r1cs_constraints == self.r1cs.constraints@.len()
        &&& self.num_r1cs_witness_variables
            == self.r1cs.spec_witness_size() - 1 - self.r1cs.number_of_inputs
        &&& self.u_polynomials@.len() == spec_sap_num_vars(self.r1cs) + 1
        &&& self.w_polynomials@.len() == spec_sap_num_vars(self.r1cs) + 1
        &&& forall|j: int| 0 <= j < self.u_polynomials@.len()
            ==> canon_p((#[trigger] self.u_polynomials@[j])@)
                && self.u_polynomials@[j]@.len() <= spec_rq_size(self.r1cs)
        &&& forall|j: int| 0 <= j < self.w_polynomials@.len()
            ==> canon_p((#[trigger] self.w_polynomials@[j])@)
                && self.w_polynomials@[j]@.len() <= spec_rq_size(self.r1cs)
        &&& canon_p(self.target@)
        &&& self.target@.len() == spec_rq_size(self.r1cs) + 1
        &&& self.target@[spec_rq_size(self.r1cs)] == 1
        &&& 2 * self.r1cs.constraints@.len() + 2 * (self.r1cs.number_of_inputs + 1)
            + self.r1cs.spec_witness_size() + 4 <= usize::MAX
        &&& spec_rq_size(self.r1cs) < MOD_P
    }

    /// The polynomial families interpolate the two constraint matrices.
    pub open spec fn interpolates(&self) -> bool {
        &&& forall|j: int, k: int| 0 <= j <= spec_sap_num_vars(self.r1cs)
            && 0 <= k < spec_rq_size(self.r1cs)
            ==> peval(ints((#[trigger] self.u_polynomials@[j])@), k) % (MOD_P as int)
                == #[trigger] u_entry(self.r1cs, j, k) % (MOD_P as int)
        &&& forall|j: int, k: int| 0 <= j <= spec_sap_num_vars(self.r1cs)
            && 0 <= k < spec_rq_size(self.r1cs)
            ==> peval(ints((#[trigger] self.w_polynomials@[j])@), k) % (MOD_P as int)
                == #[trigger] w_entry(self.r1cs, j, k) % (MOD_P as int)
        &&& forall|k: int| 0 <= k < spec_rq_size(self.r1cs)
            ==> #[trigger] (peval(ints(self.target@), k) % (MOD_P as int)) == 0
    }

    /// Packs the given parts into a SAP.
    pub fn new(
        num_instance_variables: usize,
        num_r1cs_witness_variables: usize,
        num_r1cs_constraints: usize,
        u_polynomials: Vec<Vec<u64>>,
        w_polynomials: Vec<Vec<u64>>,
        target: Vec<u64>,
        r1cs: R1CS,
    ) -> (r: Result<Self, CreationError>)
        ensures
            match r {
                Ok(sap) => {
                    &&& sap.num_instance_variables == num_instance_variables
                    &&& sap.num_r1cs_witness_variables == num_r1cs_witness_variables
                    &&& sap.num_r1cs_constraints == num_r1cs_constraints
                    &&& sap.u_polynomials@ == u_polynomials@
                    &&& sap.w_polynomials@ == w_polynomials@
                    &&& sap.target@ == target@
                    &&& sap.r1cs == r1cs
                },
                Err(_) => false,
            },
    {
        Ok(Self {
            num_instance_variables,
            num_r1cs_witness_variables,
            num_r1cs_constraints,
            u_polynomials,
            w_polynomials,
            target,
            r1cs,
        })
    }

    /// `U^2 - W` at the given assignment, which lists the values of every
    /// SAP variable past the constant wire.
    pub fn p_polinomial(&self, cs: &Vec<u64>) -> (r: Result<Vec<u64>, EvaluationError>)
        requires
            self.wf(),
            canon_p(cs@),
        ensures
            match r {
                Ok(p) => {
                    &&& cs@.len() == spec_sap_num_vars(self.r1cs)
                    &&& canon_p(p@)
                    &&& p@.len() < 2 * spec_rq_size(self.r1cs)
                    &&& pcong(ints(p@), spec_p_poly(*self, ints(cs@)))
                },
                Err(EvaluationError::LengthMismatch) => cs@.len() != spec_sap_num_vars(
                    self.r1cs),
                Err(EvaluationError::InexactPolynomialDivision) => false,
            },
    {
        let expected: usize = self.u_polynomials.len() - 1;
        if cs.len() != expected {
            return Err(EvaluationError::LengthMismatch);
        }
        let u_x: Vec<u64> = combine(&self.u_polynomials, cs, Ghost(spec_rq_size(self.r1cs)));
        let w_x: Vec<u64> = combine(&self.w_polynomials, cs, Ghost(spec_rq_size(self.r1cs)));
        let u_sq: Vec<u64> = poly_mul(&u_x, &u_x);
        let p: Vec<u64> = poly_sub(&u_sq, &w_x);
        proof {
            let cs_i = ints(cs@);
            let uspec = spec_u_poly(*self, cs_i);
            let wspec = spec_w_poly(*self, cs_i);
            lemma_pmul_cong(ints(u_x@), uspec, ints(u_x@), uspec);
            lemma_pcong_trans(ints(u_sq@), pmul(ints(u_x@), ints(u_x@)), pmul(uspec, uspec));
            lemma_psub_cong(ints(u_sq@), pmul(uspec, uspec), ints(w_x@), wspec);
            lemma_pcong_trans(ints(p@), psub(ints(u_sq@), ints(w_x@)),
                psub(pmul(uspec, uspec), wspec));
            if u_x@.len() > 0 {
                lemma_pmul_len(ints(u_x@), ints(u_x@));
            } else {
                assert(pmul(ints(u_x@), ints(u_x@)).len() == 0);
            }
        }
        Ok(p)
    }

    /// The cofactor `H = (U^2 - W) / T`, or an error when the division is
    /// not exact, which means the assignment does not satisfy the program.
    pub fn h_polinomial(&self, c: &Vec<u64>) -> (r: Result<Vec<u64>, EvaluationError>)
        requires
            self.wf(),
            canon_p(c@),
        ensures
            match r {
                Ok(h) => {
                    &&& c@.len() == spec_sap_num_vars(self.r1cs)
                    &&& canon_p(h@)
                    &&& h@.len() < spec_rq_size(self.r1cs)
                    &&& pcong(spec_p_poly(*self, ints(c@)), pmul(ints(h@), ints(self.target@)))
                },
                Err(EvaluationError::LengthMismatch) => c@.len() != spec_sap_num_vars(
                    self.r1cs),
                Err(EvaluationError::InexactPolynomialDivision) => {
                    &&& c@.len() == spec_sap_num_vars(self.r1cs)
                    &&& forall|h: Seq<int>| !pcong(spec_p_poly(*self, ints(c@)),
                        pmul(h, ints(self.target@)))
                },
            },
    {
        let p: Vec<u64> = match self.p_polinomial(c) {
            Ok(p) => p,
            Err(e) => {
                return Err(e);
            },
        };
        let qr: (Vec<u64>, Vec<u64>) = crate::utils::poly_div_rem(&p, &self.target);
        let q: Vec<u64> = qr.0;
        let rem: Vec<u64> = qr.1;
        if poly_is_zero(&rem) {
            proof {
                let pspec = spec_p_poly(*self, ints(c@));
                lemma_padd_zero_right(pmul(ints(q@), ints(self.target@)), ints(rem@));
                lemma_pcong_trans(ints(p@), padd(pmul(ints(q@), ints(self.target@)),
                    ints(rem@)), pmul(ints(q@), ints(self.target@)));
                lemma_pcong_trans(pspec, ints(p@), pmul(ints(q@), ints(self.target@)));
                assert(pcong(pspec, ints(p@)));
            }
            Ok(q)
        } else {
            proof {
                let pspec = spec_p_poly(*self, ints(c@));
                let ti = ints(self.target@);
                let idx = choose|j: int| 0 <= j < rem@.len() && rem@[j] != 0;
                assert forall|h: Seq<int>| !pcong(pspec, pmul(h, ti)) by {
                    if pcong(pspec, pmul(h, ti)) {
                        lemma_pcong_trans(ints(p@), pspec, pmul(h, ti));
                        crate::poly::lemma_monic_division_unique(ints(p@), ti, ints(q@),
                            ints(rem@), h);
                        assert(ints(rem@)[idx] % (MOD_P as int) == 0);
                        lemma_small_mod(rem@[idx] as nat, MOD_P as nat);
                    }
                }
            }
            Err(EvaluationError::InexactPolynomialDivision)
        }
    }

    /// Reduces an R1CS to a square arithmetic program.
    pub fn r1cs_to_sap(r1cs: R1CS) -> (r: Self)
        requires
            r1cs.wf(),
            2 * r1cs.constraints@.len() + 2 * (r1cs.number_of_inputs + 1)
                + r1cs.spec_witness_size() + 4 <= usize::MAX,
            spec_rq_size(r1cs) < MOD_P,
        ensures
            r.wf(),
            r.r1cs == r1cs,
            r.interpolates(),
    {
        let m: usize = r1cs.num_of_constraints();
        let ninst: usize = r1cs.num_instance_variables();
        let naux: usize = r1cs.num_r1cs_aux_variables();
        let sap_num_var: usize = m + 2 * (ninst - 1) + naux;
        let rq_size: usize = 2 * m + 2 * (ninst - 1) + 1;

        let mut xs: Vec<u64> = Vec::new();
        let mut k: usize = 0;
        while k < rq_size
            invariant
                k <= rq_size,
                rq_size < MOD_P,
                xs@.len() == k,
                forall|t: int| 0 <= t < k ==> #[trigger] xs@[t] == t,
            decreases rq_size - k,
        {
            xs.push(k as u64);
            k = k + 1;
        }
        proof {
            assert(canon_p(xs@));
        }

        let mut target: Vec<u64> = Vec::new();
        target.push(1u64);
        proof {
            assert(ints(target@) =~= seq![1int]);
            lemma_small_mod(1nat, MOD_P as nat);
        }
        let mut k: usize = 0;
        while k < rq_size
            invariant
                k <= rq_size,
                rq_size < MOD_P,
                canon_p(target@),
                target@.len() == k + 1,
                target@[k as int] == 1,
                forall|t: int| 0 <= t < k
                    ==> #[trigger] (peval(ints(target@), t) % (MOD_P as int)) == 0,
            decreases rq_size - k,
        {
            let neg_k: u64 = if k == 0 { 0 } else { MOD_P - (k as u64) };
            let mut lin: Vec<u64> = Vec::new();
            lin.push(neg_k);
            lin.push(1u64);
            let next: Vec<u64> = poly_mul(&target, &lin);
            proof {
                let ti = ints(target@);
                let li = ints(lin@);
                lemma_pmul_len(ti, li);
                lemma_pmul_leading(ti, li);
                assert(li[1] == 1);
                assert(ti[k as int] * 1 == ti[k as int]) by (nonlinear_arith);
                // the new leading coefficient is canonical and congruent to 1
                assert(coeff_at(ints(next@), k + 1) % (MOD_P as int)
                    == coeff_at(pmul(ti, li), k + 1) % (MOD_P as int));
                assert(coeff_at(ints(next@), k + 1) == next@[k + 1] as int);
                assert(coeff_at(pmul(ti, li), k + 1) == 1);
                lemma_small_mod(1nat, MOD_P as nat);
                lemma_small_mod(next@[k + 1] as nat, MOD_P as nat);
                assert(next@[k + 1] == 1);
                // the product vanishes at every point up to and including k
                assert forall|t: int| 0 <= t < k + 1 implies
                    #[trigger] (peval(ints(next@), t) % (MOD_P as int)) == 0 by {
                    lemma_peval_cong(ints(next@), pmul(ti, li), t);
                    lemma_peval_pmul(ti, li, t);
                    let e1 = peval(ti, t);
                    let e2 = peval(li, t);
                    lemma_mul_mod_noop(e1, e2, MOD_P as int);
                    if t < k {
                        assert(e1 % (MOD_P as int) == 0);
                        assert((0int * (e2 % (MOD_P as int))) == 0) by (nonlinear_arith);
                        lemma_mod_twice(0int, MOD_P as int);
                    } else {
                        // peval of the linear factor at its root is the modulus
                        assert(ints(lin@)[0] == neg_k as int);
                        assert(tail(li) =~= seq![1int]);
                        assert(tail(seq![1int]) =~= Seq::<int>::empty());
                        assert(peval(seq![1int], t) == 1 + t * peval(Seq::<int>::empty(), t));
                        assert(t * 0 == 0) by (nonlinear_arith);
                        assert(peval(li, t) == neg_k + t * 1);
                        assert(t * 1 == t) by (nonlinear_arith);
                        if k == 0 {
                            assert(e2 == 0);
                        } else {
                            assert(e2 == MOD_P);
                            lemma_mod_multiples_vanish(1, 0, MOD_P as int);
                        }
                        assert(e2 % (MOD_P as int) == 0);
                        assert(((e1 % (MOD_P as int)) * 0int) == 0) by (nonlinear_arith);
                        lemma_mod_twice(0int, MOD_P as int);
                    }
                }
            }
            target = next;
            k = k + 1;
        }

        let mut us: Vec<Vec<u64>> = Vec::new();
        let mut ws: Vec<Vec<u64>> = Vec::new();
        let mut j: usize = 0;
        while j <= sap_num_var
            invariant
                j <= sap_num_var + 1,
                r1cs.wf(),
                2 * r1cs.constraints@.len() + 2 * (r1cs.number_of_inputs + 1)
                    + r1cs.spec_witness_size() + 4 <= usize::MAX,
                m == r1cs.constraints@.len(),
                ninst == r1cs.number_of_inputs + 1,
                sap_num_var == spec_sap_num_vars(r1cs),
                rq_size == spec_rq_size(r1cs),
                rq_size < MOD_P,
                xs@.len() == rq_size,
                forall|t: int| 0 <= t < rq_size ==> #[trigger] xs@[t] == t,
                us@.len() == j,
                ws@.len() == j,
                forall|t: int| 0 <= t < j ==> canon_p((#[trigger] us@[t])@)
                    && us@[t]@.len() <= rq_size,
                forall|t: int| 0 <= t < j ==> canon_p((#[trigger] ws@[t])@)
                    && ws@[t]@.len() <= rq_size,
                forall|t: int, k2: int| 0 <= t < j && 0 <= k2 < rq_size
                    ==> peval(ints((#[trigger] us@[t])@), k2) % (MOD_P as int)
                        == #[trigger] u_entry(r1cs, t, k2) % (MOD_P as int),
                forall|t: int, k2: int| 0 <= t < j && 0 <= k2 < rq_size
                    ==> peval(ints((#[trigger] ws@[t])@), k2) % (MOD_P as int)
                        == #[trigger] w_entry(r1cs, t, k2) % (MOD_P as int),
            decreases sap_num_var + 1 - j,
        {
            let mut u_row: Vec<u64> = Vec::new();
            let mut w_row: Vec<u64> = Vec::new();
            let mut k2: usize = 0;
            while k2 < rq_size
                invariant
                    k2 <= rq_size,
                    r1cs.wf(),
                    2 * r1cs.constraints@.len() + 2 * (r1cs.number_of_inputs + 1)
                        + r1cs.spec_witness_size() + 4 <= usize::MAX,
                    m == r1cs.constraints@.len(),
                    ninst == r1cs.number_of_inputs + 1,
                    sap_num_var == spec_sap_num_vars(r1cs),
                    rq_size == spec_rq_size(r1cs),
                    j <= sap_num_var,
                    u_row@.len() == k2,
                    w_row@.len() == k2,
                    canon_p(u_row@),
                    canon_p(w_row@),
                    forall|t: int| 0 <= t < k2 ==> #[trigger] (u_row@[t] as int)
                        == u_entry(r1cs, j as int, t) % (MOD_P as int),
                    forall|t: int| 0 <= t < k2 ==> #[trigger] (w_row@[t] as int)
                        == w_entry(r1cs, j as int, t) % (MOD_P as int),
                decreases rq_size - k2,
            {
                u_row.push(u_entry_at(&r1cs, j, k2));
                w_row.push(w_entry_at(&r1cs, j, k2));
                k2 = k2 + 1;
            }
            let u_poly: Vec<u64> = match interpolate(&xs, &u_row) {
                Ok(p) => p,
                Err(_) => {
                    proof {
                        assert(forall|i1: int, i2: int| 0 <= i1 < i2 < xs@.len()
                            ==> xs@[i1] != xs@[i2]);
                        assert(false);
                    }
                    Vec::new()
                },
            };
            let w_poly: Vec<u64> = match interpolate(&xs, &w_row) {
                Ok(p) => p,
                Err(_) => {
                    proof {
                        assert(forall|i1: int, i2: int| 0 <= i1 < i2 < xs@.len()
                            ==> xs@[i1] != xs@[i2]);
                        assert(false);
                    }
                    Vec::new()
                },
            };
            proof {
                assert forall|t: int| 0 <= t < rq_size implies
                    peval(ints(u_poly@), t) % (MOD_P as int)
                        == u_entry(r1cs, j as int, t) % (MOD_P as int) by {
                    assert(xs@[t] == t);
                    assert(peval(ints(u_poly@), xs@[t] as int) % (MOD_P as int)
                        == u_row@[t] as int);
                    lemma_mod_twice(u_entry(r1cs, j as int, t), MOD_P as int);
                }
                assert forall|t: int| 0 <= t < rq_size implies
                    peval(ints(w_poly@), t) % (MOD_P as int)
                        == w_entry(r1cs, j as int, t) % (MOD_P as int) by {
                    assert(xs@[t] == t);
                    assert(peval(ints(w_poly@), xs@[t] as int) % (MOD_P as int)
                        == w_row@[t] as int);
                    lemma_mod_twice(w_entry(r1cs, j as int, t), MOD_P as int);
                }
            }
            us.push(u_poly);
            ws.push(w_poly);
            j = j + 1;
        }

        Self {
            num_instance_variables: ninst,
            num_r1cs_witness_variables: naux,
            num_r1cs_constraints: m,
            u_polynomials: us,
            w_polynomials: ws,
            target,
            r1cs,
        }
    }
}

/// The `U`-role matrix entry for witness position `j` at point `k`, as a
/// canonical field element.
fn u_entry_at(r: &R1CS, j: usize, k: usize) -> (res: u64)
    requires
        r.wf(),
        2 * r.constraints@.len() + 2 * (r.number_of_inputs + 1)
            + r.spec_witness_size() + 4 <= usize::MAX,
        j <= spec_sap_num_vars(*r),
        k < spec_rq_size(*r),
    ensures
        is_fp(res),
        res == u_entry(*r, j as int, k as int) % (MOD_P as int),
{
    let m: usize = r.constraints.len();
    let n: usize = r.witness_size();
    if k < 2 * m {
        let i: usize = k / 2;
        let av: u64 = if j < n { r.constraints[i].a[j] } else { 0 };
        let bv: u64 = if j < n { r.constraints[i].b[j] } else { 0 };
        proof {
            assert(av as int == mat_a(*r, i as int, j as int));
            assert(bv as int == mat_b(*r, i as int, j as int));
        }
        if k % 2 == 0 {
            add_p(av, bv)
        } else {
            sub_p(av, bv)
        }
    } else if k == 2 * m {
        proof {
            lemma_small_mod(b2i(j == 0) as nat, MOD_P as nat);
        }
        if j == 0 { 1 } else { 0 }
    } else {
        let o: usize = k - 2 * m;
        if o % 2 == 1 {
            let i: usize = (o + 1) / 2;
            let x: u64 = if j == i { 1 } else { 0 };
            let y: u64 = if j == 0 { 1 } else { 0 };
            add_p(x, y)
        } else {
            let i: usize = o / 2;
            let x: u64 = if j == i { 1 } else { 0 };
            let y: u64 = if j == 0 { 1 } else { 0 };
            sub_p(x, y)
        }
    }
}

/// The `W`-role matrix entry for witness position `j` at point `k`, as a
/// canonical field element.
fn w_entry_at(r: &R1CS, j: usize, k: usize) -> (res: u64)
    requires
        r.wf(),
        2 * r.constraints@.len() + 2 * (r.number_of_inputs + 1)
            + r.spec_witness_size() + 4 <= usize::MAX,
        j <= spec_sap_num_vars(*r),
        k < spec_rq_size(*r),
    ensures
        is_fp(res),
        res == w_entry(*r, j as int, k as int) % (MOD_P as int),
{
    let m: usize = r.constraints.len();
    let n: usize = r.witness_size();
    let ninst: usize = r.num_instance_variables();
    let naux: usize = r.num_r1cs_aux_variables();
    let evo: usize = ninst + naux;
    let evo2: usize = (ninst - 1) + naux + m;
    proof {
        assert(evo == spec_extra_var_offset(*r));
        assert(evo2 == spec_extra_var_offset2(*r));
    }
    if k < 2 * m {
        let i: usize = k / 2;
        let cv: u64 = if j < n { r.constraints[i].c[j] } else { 0 };
        proof {
            assert(cv as int == mat_c(*r, i as int, j as int));
        }
        let slack: u64 = if j == evo + i { 1 } else { 0 };
        if k % 2 == 0 {
            let four_c: u64 = times_four(cv);
            let res: u64 = add_p(four_c, slack);
            proof {
                lemma_add_mod_noop(4 * cv, slack as int, MOD_P as int);
                lemma_mod_twice(4 * (cv as int), MOD_P as int);
                lemma_small_mod(slack as nat, MOD_P as nat);
            }
            res
        } else {
            proof {
                lemma_small_mod(slack as nat, MOD_P as nat);
            }
            slack
        }
    } else if k == 2 * m {
        proof {
            lemma_small_mod(b2i(j == 0) as nat, MOD_P as nat);
        }
        if j == 0 { 1 } else { 0 }
    } else {
        let o: usize = k - 2 * m;
        if o % 2 == 1 {
            let i: usize = (o + 1) / 2;
            let x: u64 = if j == i { 1 } else { 0 };
            let slack: u64 = if j == evo2 + i { 1 } else { 0 };
            let four_x: u64 = times_four(x);
            let res: u64 = add_p(four_x, slack);
            proof {
                lemma_add_mod_noop(4 * x, slack as int, MOD_P as int);
                lemma_mod_twice(4 * (x as int), MOD_P as int);
                lemma_small_mod(slack as nat, MOD_P as nat);
            }
            res
        } else {
            let i: usize = o / 2;
            let slack: u64 = if j == evo2 + i { 1 } else { 0 };
            proof {
                lemma_small_mod(slack as nat, MOD_P as nat);
            }
            slack
        }
    }
}

/// Four times a field element.
fn times_four(x: u64) -> (r: u64)
    requires
        is_fp(x),
    ensures
        is_fp(r),
        r == (4 * x) % (MOD_P as int),
{
    let times_two: u64 = add_p(x, x);
    let r: u64 = add_p(times_two, times_two);
    proof {
        lemma_add_mod_noop(x + x, x + x, MOD_P as int);
        lemma_mod_twice(x + x, MOD_P as int);
        assert(x + x + x + x == 4 * x);
    }
    r
}

/// Value of the linear-combination terms `terms` under `assignment`,
/// position by position.
pub fn eval(terms: &Vec<u64>, assignment: &Vec<u64>) -> (r: u64)
    requires
        canon_p(terms@),
        canon_p(assignment@),
        assignment@.len() >= terms@.len(),
    ensures
        is_fp(r),
        r == crate::poly::dot(ints(terms@), ints(assignment@)) % (MOD_P as int),
{
    crate::r1cs::inner_product(terms, assignment)
}

/// The combined polynomial `polys[0] + sum cs[t] * polys[t + 1]`, every row
/// shorter than `bound`.
pub(crate) fn combine(polys: &Vec<Vec<u64>>, cs: &Vec<u64>, bound: Ghost<int>) -> (r: Vec<u64>)
    requires
        polys@.len() == cs@.len() + 1,
        forall|t: int| 0 <= t < polys@.len() ==> canon_p((#[trigger] polys@[t])@)
            && polys@[t]@.len() <= bound@,
        canon_p(cs@),
        0 <= bound@,
    ensures
        canon_p(r@),
        r@.len() <= bound@,
        r@.len() == lincomb(rows_ints(polys@), ints(cs@), cs@.len() as int).len(),
        pcong(ints(r@), lincomb(rows_ints(polys@), ints(cs@), cs@.len() as int)),
{
    let mut acc: Vec<u64> = copy_row(&polys[0]);
    proof {
        assert(rows_ints(polys@)[0] == ints(polys@[0]@));
        assert(lincomb(rows_ints(polys@), ints(cs@), 0) == ints(polys@[0]@));
    }
    let mut t: usize = 0;
    while t < cs.len()
        invariant
            t <= cs@.len(),
            polys@.len() == cs@.len() + 1,
            forall|i: int| 0 <= i < polys@.len() ==> canon_p((#[trigger] polys@[i])@)
                && polys@[i]@.len() <= bound@,
            canon_p(cs@),
            0 <= bound@,
            canon_p(acc@),
            acc@.len() <= bound@,
            acc@.len() == lincomb(rows_ints(polys@), ints(cs@), t as int).len(),
            pcong(ints(acc@), lincomb(rows_ints(polys@), ints(cs@), t as int)),
        decreases cs@.len() - t,
    {
        let scaled: Vec<u64> = poly_scale(cs[t], &polys[t + 1]);
        let next: Vec<u64> = poly_add(&acc, &scaled);
        proof {
            let rows = rows_ints(polys@);
            let csi = ints(cs@);
            assert(rows[t + 1] == ints(polys@[t + 1]@));
            assert(lincomb(rows, csi, t + 1)
                == padd(lincomb(rows, csi, t as int), pscale(csi[t as int], rows[t + 1])));
            lemma_padd_cong(ints(acc@), lincomb(rows, csi, t as int),
                ints(scaled@), pscale(csi[t as int], rows[t + 1]));
            lemma_pcong_trans(ints(next@), padd(ints(acc@), ints(scaled@)),
                lincomb(rows, csi, t + 1));
        }
        acc = next;
        t = t + 1;
    }
    acc
}

/// The full wire vector of an assignment: the constant `1` followed by the
/// values of every other SAP variable.
pub open spec fn xfull(cs: Seq<int>) -> Seq<int> {
    seq![1int] + cs
}

/// The `U`-matrix entries at interpolation point `k`, one per witness
/// position.
pub open spec fn erow_u(r: R1CS, k: int) -> Seq<int> {
    Seq::new((spec_sap_num_vars(r) + 1) as nat, |j: int| u_entry(r, j, k))
}

/// The `W`-matrix entries at interpolation point `k`, one per witness
/// position.
pub open spec fn erow_w(r: R1CS, k: int) -> Seq<int> {
    Seq::new((spec_sap_num_vars(r) + 1) as nat, |j: int| w_entry(r, j, k))
}

/// A vector that is zero except for one entry.
pub open spec fn spike(len: int, at: int, c: int) -> Seq<int> {
    Seq::new(len as nat, |j: int| if j == at { c } else { 0 })
}

/// Coefficient row `a` of constraint `i`, as integers.
pub open spec fn row_a(r: R1CS, i: int) -> Seq<int> {
    ints(r.constraints@[i].a@)
}

/// Coefficient row `b` of constraint `i`, as integers.
pub open spec fn row_b(r: R1CS, i: int) -> Seq<int> {
    ints(r.constraints@[i].b@)
}

/// Coefficient row `c` of constraint `i`, as integers.
pub open spec fn row_c(r: R1CS, i: int) -> Seq<int> {
    ints(r.constraints@[i].c@)
}

/// The witness size never exceeds the number of SAP variables.
proof fn lemma_n_le_vars(r: R1CS)
    requires
        r.wf(),
    ensures
        r.spec_witness_size() <= spec_sap_num_vars(r) + 1,
        spec_extra_var_offset(r) + r.constraints@.len() <= spec_sap_num_vars(r) + 1,
        spec_extra_var_offset2(r) + r.number_of_inputs <= spec_sap_num_vars(r),
{
}

/// The `U` entries of a constraint column sum against an assignment to
/// `<a_i, x> + <b_i, x>` (even column) or `<a_i, x> - <b_i, x>` (odd
/// column).
proof fn lemma_su_constraint(r: R1CS, x: Seq<int>, i: int, k: int)
    requires
        r.wf(),
        x.len() == spec_sap_num_vars(r) + 1,
        0 <= i < r.constraints@.len(),
        k == 2 * i || k == 2 * i + 1,
    ensures
        k == 2 * i ==> dot(erow_u(r, k), x) == dot(row_a(r, i), x) + dot(row_b(r, i), x),
        k == 2 * i + 1 ==> dot(erow_u(r, k), x) == dot(row_a(r, i), x) - dot(row_b(r, i), x),
{
    let m = r.constraints@.len() as int;
    let lv = spec_sap_num_vars(r) + 1;
    lemma_n_le_vars(r);
    let ea = Seq::new(lv as nat, |j: int| coeff_at(row_a(r, i), j));
    let eb = Seq::new(lv as nat, |j: int| coeff_at(row_b(r, i), j));
    assert(k < 2 * m);
    assert(k / 2 == i);
    if k == 2 * i {
        assert(k % 2 == 0);
        assert(erow_u(r, k) =~= padd(ea, eb)) by {
            assert forall|j: int| 0 <= j < lv implies
                erow_u(r, k)[j] == padd(ea, eb)[j] by {
                assert(u_entry(r, j, k) == mat_a(r, i, j) + mat_b(r, i, j));
                assert(mat_a(r, i, j) == coeff_at(row_a(r, i), j));
                assert(mat_b(r, i, j) == coeff_at(row_b(r, i), j));
            }
        }
        lemma_dot_padd(ea, eb, x);
        lemma_dot_ext(row_a(r, i), lv, x);
        lemma_dot_ext(row_b(r, i), lv, x);
    } else {
        assert(k % 2 == 1);
        assert(erow_u(r, k) =~= psub(ea, eb)) by {
            assert forall|j: int| 0 <= j < lv implies
                erow_u(r, k)[j] == psub(ea, eb)[j] by {
                assert(u_entry(r, j, k) == mat_a(r, i, j) - mat_b(r, i, j));
                assert(mat_a(r, i, j) == coeff_at(row_a(r, i), j));
                assert(mat_b(r, i, j) == coeff_at(row_b(r, i), j));
            }
        }
        lemma_dot_psub(ea, eb, x);
        lemma_dot_ext(row_a(r, i), lv, x);
        lemma_dot_ext(row_b(r, i), lv, x);
    }
}

/// The `W` entries of a constraint column sum against an assignment to
/// `4 <c_i, x>` plus the slack value (even column) or the slack value alone
/// (odd column).
proof fn lemma_sw_constraint(r: R1CS, x: Seq<int>, i: int, k: int)
    requires
        r.wf(),
        x.len() == spec_sap_num_vars(r) + 1,
        0 <= i < r.constraints@.len(),
        k == 2 * i || k == 2 * i + 1,
    ensures
        k == 2 * i ==> dot(erow_w(r, k), x)
            == 4 * dot(row_c(r, i), x) + x[spec_extra_var_offset(r) + i],
        k == 2 * i + 1 ==> dot(erow_w(r, k), x) == x[spec_extra_var_offset(r) + i],
{
    let m = r.constraints@.len() as int;
    let lv = spec_sap_num_vars(r) + 1;
    lemma_n_le_vars(r);
    let evo = spec_extra_var_offset(r);
    let ec = Seq::new(lv as nat, |j: int| coeff_at(row_c(r, i), j));
    let sp = spike(lv, evo + i, 1);
    assert(k < 2 * m);
    assert(k / 2 == i);
    assert(0 <= evo + i < lv);
    if k == 2 * i {
        assert(k % 2 == 0);
        assert(erow_w(r, k) =~= padd(pscale(4, ec), sp)) by {
            assert forall|j: int| 0 <= j < lv implies
                erow_w(r, k)[j] == padd(pscale(4, ec), sp)[j] by {
                assert(w_entry(r, j, k) == 4 * mat_c(r, i, j) + b2i(j == evo + i));
                assert(mat_c(r, i, j) == coeff_at(row_c(r, i), j));
                assert(pscale(4, ec)[j] == 4 * ec[j]);
            }
        }
        lemma_dot_padd(pscale(4, ec), sp, x);
        lemma_dot_pscale(4, ec, x);
        lemma_dot_ext(row_c(r, i), lv, x);
        lemma_dot_spike(sp, x, evo + i, 1);
        assert(1 * x[evo + i] == x[evo + i]) by (nonlinear_arith);
    } else {
        assert(k % 2 == 1);
        assert(erow_w(r, k) =~= sp) by {
            assert forall|j: int| 0 <= j < lv implies erow_w(r, k)[j] == sp[j] by {
                assert(w_entry(r, j, k) == b2i(j == evo + i));
            }
        }
        lemma_dot_spike(sp, x, evo + i, 1);
        assert(1 * x[evo + i] == x[evo + i]) by (nonlinear_arith);
    }
}

/// Both entry rows of the constant-pinning column pick the constant wire.
proof fn lemma_s_const(r: R1CS, x: Seq<int>)
    requires
        r.wf(),
        x.len() == spec_sap_num_vars(r) + 1,
    ensures
        dot(erow_u(r, 2 * (r.constraints@.len() as int)), x) == x[0],
        dot(erow_w(r, 2 * (r.constraints@.len() as int)), x) == x[0],
{
    let m = r.constraints@.len() as int;
    let lv = spec_sap_num_vars(r) + 1;
    let sp = spike(lv, 0, 1);
    assert(erow_u(r, 2 * m) =~= sp) by {
        assert forall|j: int| 0 <= j < lv implies erow_u(r, 2 * m)[j] == sp[j] by {
            assert(u_entry(r, j, 2 * m) == b2i(j == 0));
        }
    }
    assert(erow_w(r, 2 * m) =~= sp) by {
        assert forall|j: int| 0 <= j < lv implies erow_w(r, 2 * m)[j] == sp[j] by {
            assert(w_entry(r, j, 2 * m) == b2i(j == 0));
        }
    }
    lemma_dot_spike(sp, x, 0, 1);
    assert(1 * x[0] == x[0]) by (nonlinear_arith);
}

/// The `U` entries of an instance column sum against an assignment to
/// `x_i + x_0` (odd column) or `x_i - x_0` (even column).
proof fn lemma_su_instance(r: R1CS, x: Seq<int>, i: int, k: int)
    requires
        r.wf(),
        x.len() == spec_sap_num_vars(r) + 1,
        1 <= i <= r.number_of_inputs,
        k == 2 * r.constraints@.len() + 2 * i - 1 || k == 2 * r.constraints@.len() + 2 * i,
    ensures
        k == 2 * r.constraints@.len() + 2 * i - 1
            ==> dot(erow_u(r, k), x) == x[i] + x[0],
        k == 2 * r.constraints@.len() + 2 * i
            ==> dot(erow_u(r, k), x) == x[i] - x[0],
{
    let m = r.constraints@.len() as int;
    let lv = spec_sap_num_vars(r) + 1;
    lemma_n_le_vars(r);
    let o = k - 2 * m;
    let spi = spike(lv, i, 1);
    let sp0 = spike(lv, 0, 1);
    assert(0 < i < lv);
    if k == 2 * m + 2 * i - 1 {
        assert(o == 2 * i - 1 && o % 2 == 1 && (o + 1) / 2 == i);
        assert(erow_u(r, k) =~= padd(spi, sp0)) by {
            assert forall|j: int| 0 <= j < lv implies
                erow_u(r, k)[j] == padd(spi, sp0)[j] by {
                assert(u_entry(r, j, k) == b2i(j == i) + b2i(j == 0));
            }
        }
        lemma_dot_padd(spi, sp0, x);
        lemma_dot_spike(spi, x, i, 1);
        lemma_dot_spike(sp0, x, 0, 1);
        assert(1 * x[i] == x[i] && 1 * x[0] == x[0]) by (nonlinear_arith);
    } else {
        assert(o == 2 * i && o % 2 == 0 && o / 2 == i && o >= 1);
        assert(erow_u(r, k) =~= psub(spi, sp0)) by {
            assert forall|j: int| 0 <= j < lv implies
                erow_u(r, k)[j] == psub(spi, sp0)[j] by {
                assert(u_entry(r, j, k) == b2i(j == i) - b2i(j == 0));
            }
        }
        lemma_dot_psub(spi, sp0, x);
        lemma_dot_spike(spi, x, i, 1);
        lemma_dot_spike(sp0, x, 0, 1);
        assert(1 * x[i] == x[i] && 1 * x[0] == x[0]) by (nonlinear_arith);
    }
}

/// The `W` entries of an instance column sum against an assignment to
/// `4 x_i` plus the slack value (odd column) or the slack value alone (even
/// column).
proof fn lemma_sw_instance(r: R1CS, x: Seq<int>, i: int, k: int)
    requires
        r.wf(),
        x.len() == spec_sap_num_vars(r) + 1,
        1 <= i <= r.number_of_inputs,
        k == 2 * r.constraints@.len() + 2 * i - 1 || k == 2 * r.constraints@.len() + 2 * i,
    ensures
        k == 2 * r.constraints@.len() + 2 * i - 1
            ==> dot(erow_w(r, k), x) == 4 * x[i] + x[spec_extra_var_offset2(r) + i],
        k == 2 * r.constraints@.len() + 2 * i
            ==> dot(erow_w(r, k), x) == x[spec_extra_var_offset2(r) + i],
{
    let m = r.constraints@.len() as int;
    let lv = spec_sap_num_vars(r) + 1;
    lemma_n_le_vars(r);
    let evo2 = spec_extra_var_offset2(r);
    let o = k - 2 * m;
    let spi = spike(lv, i, 1);
    let sp2 = spike(lv, evo2 + i, 1);
    assert(0 < i < lv);
    assert(0 <= evo2 + i < lv);
    if k == 2 * m + 2 * i - 1 {
        assert(o == 2 * i - 1 && o % 2 == 1 && (o + 1) / 2 == i);
        assert(erow_w(r, k) =~= padd(pscale(4, spi), sp2)) by {
            assert forall|j: int| 0 <= j < lv implies
                erow_w(r, k)[j] == padd(pscale(4, spi), sp2)[j] by {
                assert(w_entry(r, j, k) == 4 * b2i(j == i) + b2i(j == evo2 + i));
                assert(pscale(4, spi)[j] == 4 * spi[j]);
            }
        }
        lemma_dot_padd(pscale(4, spi), sp2, x);
        lemma_dot_pscale(4, spi, x);
        lemma_dot_spike(spi, x, i, 1);
        lemma_dot_spike(sp2, x, evo2 + i, 1);
        assert(1 * x[i] == x[i] && 1 * x[evo2 + i] == x[evo2 + i]) by (nonlinear_arith);
    } else {
        assert(o == 2 * i && o % 2 == 0 && o / 2 == i && o >= 1);
        assert(erow_w(r, k) =~= sp2) by {
            assert forall|j: int| 0 <= j < lv implies erow_w(r, k)[j] == sp2[j] by {
                assert(w_entry(r, j, k) == b2i(j == evo2 + i));
            }
        }
        lemma_dot_spike(sp2, x, evo2 + i, 1);
        assert(1 * x[evo2 + i] == x[evo2 + i]) by (nonlinear_arith);
    }
}

/// For an assignment that satisfies the R1CS and carries the prescribed
/// slack values, the `U`-entry sum squared is congruent to the `W`-entry sum
/// in every column.
proof fn lemma_column_square(r: R1CS, x: Seq<int>, k: int)
    requires
        r.wf(),
        x.len() == spec_sap_num_vars(r) + 1,
        x[0] == 1,
        0 <= k < spec_rq_size(r),
        r.satisfied(x),
        forall|i: int| 0 <= i < r.constraints@.len()
            ==> #[trigger] (x[spec_extra_var_offset(r) + i] % (MOD_P as int))
                == ((dot(row_a(r, i), x) - dot(row_b(r, i), x))
                    * (dot(row_a(r, i), x) - dot(row_b(r, i), x))) % (MOD_P as int),
        forall|i: int| 1 <= i <= r.number_of_inputs
            ==> #[trigger] (x[spec_extra_var_offset2(r) + i] % (MOD_P as int))
                == ((x[i] - 1) * (x[i] - 1)) % (MOD_P as int),
    ensures
        (dot(erow_u(r, k), x) * dot(erow_u(r, k), x)) % (MOD_P as int)
            == dot(erow_w(r, k), x) % (MOD_P as int),
{
    let p = MOD_P as int;
    let m = r.constraints@.len() as int;
    let su = dot(erow_u(r, k), x);
    let sw = dot(erow_w(r, k), x);
    if k < 2 * m {
        let i = k / 2;
        assert(0 <= i < m);
        assert(k == 2 * i || k == 2 * i + 1);
        lemma_su_constraint(r, x, i, k);
        lemma_sw_constraint(r, x, i, k);
        let a = dot(row_a(r, i), x);
        let b = dot(row_b(r, i), x);
        let c = dot(row_c(r, i), x);
        let sl = x[spec_extra_var_offset(r) + i];
        assert(r.constraints@[i].holds(x));
        assert((a * b) % p == c % p);
        assert(sl % p == ((a - b) * (a - b)) % p);
        if k == 2 * i {
            assert((a + b) * (a + b) == 4 * (a * b) + (a - b) * (a - b))
                by (nonlinear_arith);
            lemma_add_mod_noop(4 * (a * b), (a - b) * (a - b), p);
            lemma_mul_mod_noop(4, a * b, p);
            lemma_mul_mod_noop(4, c, p);
            assert((4 * (a * b)) % p == (4 * c) % p);
            lemma_add_mod_noop(4 * c, sl, p);
            lemma_mod_twice(4 * c, p);
            lemma_mod_twice(sl, p);
            lemma_mod_twice(4 * (a * b), p);
            lemma_mod_twice((a - b) * (a - b), p);
            assert((su * su) % p == (4 * c + sl) % p);
        } else {
            assert(su == a - b && sw == sl);
        }
    } else if k == 2 * m {
        lemma_s_const(r, x);
        assert(su == 1 && sw == 1);
        assert((1int * 1int) == 1int) by (nonlinear_arith);
    } else {
        let o = k - 2 * m;
        let i = (o + 1) / 2;
        assert(1 <= o <= 2 * r.number_of_inputs);
        assert(1 <= i <= r.number_of_inputs);
        assert(k == 2 * m + 2 * i - 1 || k == 2 * m + 2 * i);
        lemma_su_instance(r, x, i, k);
        lemma_sw_instance(r, x, i, k);
        let v = x[i as int];
        let sl = x[spec_extra_var_offset2(r) + i];
        assert(sl % p == ((v - 1) * (v - 1)) % p);
        if k == 2 * m + 2 * i - 1 {
            assert((v + 1) * (v + 1) == 4 * v + (v - 1) * (v - 1)) by (nonlinear_arith);
            lemma_add_mod_noop(4 * v, (v - 1) * (v - 1), p);
            lemma_add_mod_noop(4 * v, sl, p);
            lemma_mod_twice(4 * v, p);
            lemma_mod_twice(sl, p);
            lemma_mod_twice((v - 1) * (v - 1), p);
            assert((su * su) % p == (4 * v + sl) % p);
        } else {
            assert(su == v - 1 && sw == sl);
        }
    }
}

/// The value of a combined polynomial at a point is the entry-row sum of the
/// full wire vector, modulo the field.
proof fn lemma_lincomb_entry_sum(polys: Seq<Seq<int>>, entries: Seq<int>, cs: Seq<int>,
    k: int)
    requires
        polys.len() == cs.len() + 1,
        entries.len() == polys.len(),
        forall|j: int| 0 <= j < polys.len()
            ==> #[trigger] (peval(polys[j], k) % (MOD_P as int))
                == entries[j] % (MOD_P as int),
    ensures
        peval(lincomb(polys, cs, cs.len() as int), k) % (MOD_P as int)
            == dot(entries, xfull(cs)) % (MOD_P as int),
{
    let p = MOD_P as int;
    let lv = polys.len() as int;
    let xf = xfull(cs);
    let tv = Seq::new(cs.len(), |j: int| peval(polys[j + 1], k) * cs[j]);
    lemma_lincomb_eval(polys, cs, cs.len() as int, k, tv);
    let tm = Seq::new(polys.len(), |j: int| peval(polys[j], k) * xf[j]);
    assert forall|j: int| 0 <= j < tv.len() implies #[trigger] tv[j] == tm[j + 1] by {
        assert(xf[j + 1] == cs[j]);
    }
    lemma_ssum_shift(tm, tv);
    lemma_ssum_eq_psum(tv, 0);
    assert(tm[0] == peval(polys[0], k) * 1);
    assert(peval(polys[0], k) * 1 == peval(polys[0], k)) by (nonlinear_arith);
    assert(ssum(tm, 0) == tm[0] + ssum(tm, 1));
    assert(peval(lincomb(polys, cs, cs.len() as int), k) == ssum(tm, 0));
    let te = Seq::new(polys.len(), |j: int| entries[j] * xf[j]);
    assert forall|j: int| 0 <= j < tm.len() implies
        #[trigger] (tm[j] % p) == te[j] % p by {
        lemma_mul_mod_noop(peval(polys[j], k), xf[j], p);
        lemma_mul_mod_noop(entries[j], xf[j], p);
    }
    lemma_ssum_cong(tm, te, 0);
    lemma_ssum_is_dot(te, entries, xf, 0);
    assert(entries.skip(0) =~= entries);
    assert(xf.skip(0) =~= xf);
}

/// Unfolds the evaluation of a linear combination into a prefix sum of
/// weighted evaluations.
proof fn lemma_lincomb_eval(polys: Seq<Seq<int>>, cs: Seq<int>, t: int, k: int,
    tv: Seq<int>)
    requires
        polys.len() == cs.len() + 1,
        0 <= t <= cs.len(),
        tv.len() == cs.len(),
        forall|j: int| 0 <= j < cs.len()
            ==> #[trigger] tv[j] == peval(polys[j + 1], k) * cs[j],
    ensures
        peval(lincomb(polys, cs, t), k) == peval(polys[0], k) + psum(tv, t),
    decreases t,
{
    if t <= 0 {
    } else {
        lemma_lincomb_eval(polys, cs, t - 1, k, tv);
        lemma_peval_padd(lincomb(polys, cs, t - 1), pscale(cs[t - 1], polys[t]), k);
        lemma_peval_pscale(cs[t - 1], polys[t], k);
        assert(cs[t - 1] * peval(polys[t], k) == peval(polys[t], k) * cs[t - 1])
            by (nonlinear_arith);
    }
}

/// For every assignment that satisfies the source R1CS and carries the
/// prescribed slack values, the combined polynomials of the SAP satisfy
/// `U(k)^2 = W(k)` at every interpolation point.  This is the pointwise form
/// of the square-program property: `U^2 - W` vanishes on all the roots of
/// the target polynomial.
pub proof fn lemma_sap_square_at_points(sap: SquareArithmeticProgram, cs: Seq<int>)
    requires
        sap.wf(),
        sap.interpolates(),
        cs.len() == spec_sap_num_vars(sap.r1cs),
        sap.r1cs.satisfied(xfull(cs)),
        forall|i: int| 0 <= i < sap.r1cs.constraints@.len()
            ==> #[trigger] (xfull(cs)[spec_extra_var_offset(sap.r1cs) + i] % (MOD_P as int))
                == ((dot(row_a(sap.r1cs, i), xfull(cs)) - dot(row_b(sap.r1cs, i),
                    xfull(cs)))
                    * (dot(row_a(sap.r1cs, i), xfull(cs)) - dot(row_b(sap.r1cs, i),
                        xfull(cs)))) % (MOD_P as int),
        forall|i: int| 1 <= i <= sap.r1cs.number_of_inputs
            ==> #[trigger] (xfull(cs)[spec_extra_var_offset2(sap.r1cs) + i]
                % (MOD_P as int))
                == ((xfull(cs)[i] - 1) * (xfull(cs)[i] - 1)) % (MOD_P as int),
    ensures
        forall|k: int| 0 <= k < spec_rq_size(sap.r1cs)
            ==> #[trigger] (peval(spec_u_poly(sap, cs), k)
                    * peval(spec_u_poly(sap, cs), k)) % (MOD_P as int)
                == peval(spec_w_poly(sap, cs), k) % (MOD_P as int),
        forall|k: int| 0 <= k < spec_rq_size(sap.r1cs)
            ==> #[trigger] (peval(spec_p_poly(sap, cs), k) % (MOD_P as int)) == 0,
{
    let p = MOD_P as int;
    let r = sap.r1cs;
    let xf = xfull(cs);
    assert forall|k: int| 0 <= k < spec_rq_size(r) implies
        #[trigger] (peval(spec_u_poly(sap, cs), k) * peval(spec_u_poly(sap, cs), k)) % p
            == peval(spec_w_poly(sap, cs), k) % p by {
        let urows = rows_ints(sap.u_polynomials@);
        let wrows = rows_ints(sap.w_polynomials@);
        assert forall|j: int| 0 <= j < urows.len() implies
            #[trigger] (peval(urows[j], k) % p) == erow_u(r, k)[j] % p by {
            assert(urows[j] == ints(sap.u_polynomials@[j]@));
            assert(erow_u(r, k)[j] == u_entry(r, j, k));
        }
        assert forall|j: int| 0 <= j < wrows.len() implies
            #[trigger] (peval(wrows[j], k) % p) == erow_w(r, k)[j] % p by {
            assert(wrows[j] == ints(sap.w_polynomials@[j]@));
            assert(erow_w(r, k)[j] == w_entry(r, j, k));
        }
        lemma_lincomb_entry_sum(urows, erow_u(r, k), cs, k);
        lemma_lincomb_entry_sum(wrows, erow_w(r, k), cs, k);
        lemma_column_square(r, xf, k);
        let eu = peval(spec_u_poly(sap, cs), k);
        let su = dot(erow_u(r, k), xf);
        lemma_mul_mod_noop(eu, eu, p);
        lemma_mul_mod_noop(su, su, p);
        assert(eu % p == su % p);
    }
    assert forall|k: int| 0 <= k < spec_rq_size(r) implies
        #[trigger] (peval(spec_p_poly(sap, cs), k) % p) == 0 by {
        let uu = spec_u_poly(sap, cs);
        let ww = spec_w_poly(sap, cs);
        let eu = peval(uu, k);
        let ew = peval(ww, k);
        lemma_peval_psub(pmul(uu, uu), ww, k);
        lemma_peval_pmul(uu, uu, k);
        assert(peval(spec_p_poly(sap, cs), k) == eu * eu - ew);
        assert((eu * eu) % p == ew % p);
        lemma_sub_mod_noop(eu * eu, ew, p);
        assert((ew % p - ew % p) % p == 0);
    }
}

/// Extends an R1CS assignment (whose constant wire holds `1`) with the slack
/// values of the SAP reduction: one square `(<a_i,x> - <b_i,x>)^2` per
/// constraint and one square `(x_i - 1)^2` per instance variable, after the
/// values of the remaining wires.  The constant wire itself is dropped: the
/// result lists the values of the SAP variables past the constant.
pub fn extend_assignment(r1cs: &R1CS, x: &Vec<u64>) -> (r: Vec<u64>)
    requires
        r1cs.wf(),
        canon_p(x@),
        x@.len() == r1cs.spec_witness_size(),
        x@[0] == 1,
        2 * r1cs.constraints@.len() + 2 * (r1cs.number_of_inputs + 1)
            + r1cs.spec_witness_size() + 4 <= usize::MAX,
    ensures
        r@.len() == spec_sap_num_vars(*r1cs),
        canon_p(r@),
        xfull(ints(r@)).len() == spec_sap_num_vars(*r1cs) + 1,
        forall|j: int| 0 <= j < r1cs.spec_witness_size()
            ==> #[trigger] xfull(ints(r@))[j] == x@[j],
        forall|i: int| 0 <= i < r1cs.constraints@.len()
            ==> #[trigger] (xfull(ints(r@))[spec_extra_var_offset(*r1cs) + i]
                % (MOD_P as int))
                == ((dot(row_a(*r1cs, i), xfull(ints(r@)))
                        - dot(row_b(*r1cs, i), xfull(ints(r@))))
                    * (dot(row_a(*r1cs, i), xfull(ints(r@)))
                        - dot(row_b(*r1cs, i), xfull(ints(r@))))) % (MOD_P as int),
        forall|i: int| 1 <= i <= r1cs.number_of_inputs
            ==> #[trigger] (xfull(ints(r@))[spec_extra_var_offset2(*r1cs) + i]
                % (MOD_P as int))
                == ((xfull(ints(r@))[i] - 1) * (xfull(ints(r@))[i] - 1))
                    % (MOD_P as int),
{
    let m: usize = r1cs.constraints.len();
    let n: usize = r1cs.witness_size();
    let ninst: usize = r1cs.num_instance_variables();
    proof {
        lemma_n_le_vars(*r1cs);
    }
    let mut full: Vec<u64> = Vec::new();
    let mut j: usize = 1;
    while j < n
        invariant
            1 <= j <= n,
            n == r1cs.spec_witness_size(),
            canon_p(x@),
            x@.len() == n,
            full@.len() == j - 1,
            canon_p(full@),
            forall|t: int| 0 <= t < j - 1 ==> #[trigger] full@[t] == x@[t + 1],
        decreases n - j,
    {
        full.push(x[j]);
        j = j + 1;
    }
    let mut i: usize = 0;
    while i < m
        invariant
            i <= m,
            m == r1cs.constraints@.len(),
            n == r1cs.spec_witness_size(),
            r1cs.wf(),
            canon_p(x@),
            x@.len() == n,
            full@.len() == n - 1 + i,
            canon_p(full@),
            forall|t: int| 0 <= t < n - 1 ==> #[trigger] full@[t] == x@[t + 1],
            forall|t: int| 0 <= t < i ==> #[trigger] (full@[n - 1 + t] as int)
                == ((dot(row_a(*r1cs, t), ints(x@)) - dot(row_b(*r1cs, t), ints(x@)))
                    * (dot(row_a(*r1cs, t), ints(x@))
                        - dot(row_b(*r1cs, t), ints(x@)))) % (MOD_P as int),
        decreases m - i,
    {
        let da: u64 = crate::r1cs::inner_product(&r1cs.constraints[i].a, x);
        let db: u64 = crate::r1cs::inner_product(&r1cs.constraints[i].b, x);
        let diff: u64 = sub_p(da, db);
        let sq: u64 = mul_p(diff, diff);
        proof {
            let p = MOD_P as int;
            let ai = dot(row_a(*r1cs, i as int), ints(x@));
            let bi = dot(row_b(*r1cs, i as int), ints(x@));
            vstd::arithmetic::div_mod::lemma_sub_mod_noop(ai, bi, p);
            lemma_mod_twice(ai, p);
            lemma_mod_twice(bi, p);
            assert(diff == (ai - bi) % p);
            lemma_mul_mod_noop(ai - bi, ai - bi, p);
            lemma_mod_twice((ai - bi) * (ai - bi), p);
            assert(sq == ((ai - bi) * (ai - bi)) % p);
        }
        full.push(sq);
        i = i + 1;
    }
    let mut i: usize = 1;
    while i < ninst
        invariant
            1 <= i <= ninst,
            ninst == r1cs.number_of_inputs + 1,
            m == r1cs.constraints@.len(),
            n == r1cs.spec_witness_size(),
            r1cs.wf(),
            canon_p(x@),
            x@.len() == n,
            ninst <= n,
            full@.len() == n - 1 + m + i - 1,
            canon_p(full@),
            forall|t: int| 0 <= t < n - 1 ==> #[trigger] full@[t] == x@[t + 1],
            forall|t: int| 0 <= t < m ==> #[trigger] (full@[n - 1 + t] as int)
                == ((dot(row_a(*r1cs, t), ints(x@)) - dot(row_b(*r1cs, t), ints(x@)))
                    * (dot(row_a(*r1cs, t), ints(x@))
                        - dot(row_b(*r1cs, t), ints(x@)))) % (MOD_P as int),
            forall|t: int| 1 <= t < i ==> #[trigger] (full@[n - 1 + m + t - 1] as int)
                == ((x@[t] - 1) * (x@[t] - 1)) % (MOD_P as int),
        decreases ninst - i,
    {
        let diff: u64 = sub_p(x[i], 1);
        let sq: u64 = mul_p(diff, diff);
        proof {
            let p = MOD_P as int;
            let v = x@[i as int] as int;
            vstd::arithmetic::div_mod::lemma_sub_mod_noop(v, 1, p);
            lemma_mod_twice(v, p);
            lemma_small_mod(1nat, MOD_P as nat);
            assert(diff == (v - 1) % p);
            lemma_mul_mod_noop(v - 1, v - 1, p);
            lemma_mod_twice((v - 1) * (v - 1), p);
            assert(sq == ((v - 1) * (v - 1)) % p);
        }
        full.push(sq);
        i = i + 1;
    }
    proof {
        let xf = xfull(ints(full@));
        let xi = ints(x@);
        assert(full@.len() == spec_sap_num_vars(*r1cs));
        assert forall|j2: int| 0 <= j2 < r1cs.spec_witness_size() implies
            #[trigger] xf[j2] == x@[j2] by {
            if j2 == 0 {
            } else {
                assert(xf[j2] == full@[j2 - 1] as int);
            }
        }
        assert forall|i2: int| 0 <= i2 < r1cs.constraints@.len() implies
            #[trigger] (xf[spec_extra_var_offset(*r1cs) + i2] % (MOD_P as int))
                == ((dot(row_a(*r1cs, i2), xf) - dot(row_b(*r1cs, i2), xf))
                    * (dot(row_a(*r1cs, i2), xf) - dot(row_b(*r1cs, i2), xf)))
                    % (MOD_P as int) by {
            assert(xf[spec_extra_var_offset(*r1cs) + i2]
                == full@[n - 1 + i2] as int);
            lemma_dot_prefix_agree(row_a(*r1cs, i2), xf, xi);
            lemma_dot_prefix_agree(row_b(*r1cs, i2), xf, xi);
            lemma_mod_twice((dot(row_a(*r1cs, i2), xi) - dot(row_b(*r1cs, i2), xi))
                * (dot(row_a(*r1cs, i2), xi) - dot(row_b(*r1cs, i2), xi)),
                MOD_P as int);
        }
        assert forall|i2: int| 1 <= i2 <= r1cs.number_of_inputs implies
            #[trigger] (xf[spec_extra_var_offset2(*r1cs) + i2] % (MOD_P as int))
                == ((xf[i2] - 1) * (xf[i2] - 1)) % (MOD_P as int) by {
            assert(xf[spec_extra_var_offset2(*r1cs) + i2]
                == full@[n - 1 + m + i2 - 1] as int);
            assert(xf[i2] == x@[i2] as int);
            lemma_mod_twice((x@[i2] - 1) * (x@[i2] - 1), MOD_P as int);
        }
    }
    full
}

/// A copy of a coefficient vector.
fn copy_row(v: &Vec<u64>) -> (r: Vec<u64>)
    ensures
        r@ == v@,
{
    let mut r: Vec<u64> = Vec::new();
    let mut i: usize = 0;
    while i < v.len()
        invariant
            i <= v@.len(),
            r@ =~= v@.take(i as int),
        decreases v@.len() - i,
    {
        r.push(v[i]);
        i = i + 1;
    }
    proof {
        assert(v@.take(v@.len() as int) =~= v@);
    }
    r
}

} // verus!
