//! Polynomial services taken from the external field/polynomial library:
//! Lagrange interpolation and long division with remainder.

use vstd::prelude::*;
use lambdaworks_math::field::element::FieldElement;
use lambdaworks_math::field::fields::fft_friendly::babybear::Babybear31PrimeField;
use lambdaworks_math::polynomial::Polynomial;
use crate::field::MOD_P;
use crate::poly::{ints, canon_p, peval, pmul, padd, pcong};

verus! {

/// Why interpolation was refused.
#[derive(Debug, PartialEq, Eq, Structural)]
pub enum InterpolateError {
    UnequalLengths(usize, usize),
    NonUniqueXs,
}

/// Relies on `lambdaworks_math::polynomial::Polynomial::interpolate`: for
/// point/value lists of equal length with pairwise-distinct points it returns
/// the unique polynomial of degree below the number of points that takes the
/// given value at each given point; otherwise it reports which of the two
/// conditions failed.
#[verifier::external_body]
pub fn interpolate(xs: &Vec<u64>, ys: &Vec<u64>) -> (r: Result<Vec<u64>, InterpolateError>)
    requires
        canon_p(xs@),
        canon_p(ys@),
    ensures
        match r {
            Ok(c) => {
                &&& xs@.len() == ys@.len()
                &&& !(exists|i: int, j: int| 0 <= i < j < xs@.len() && xs@[i] == xs@[j])
                &&& canon_p(c@)
                &&& c@.len() <= xs@.len()
                &&& forall|j: int| 0 <= j < xs@.len()
                    ==> peval(ints(c@), #[trigger] xs@[j] as int) % (MOD_P as int)
                        == ys@[j] as int
            },
            Err(InterpolateError::UnequalLengths(nx, ny)) => {
                &&& xs@.len() != ys@.len()
                &&& nx == xs@.len()
                &&& ny == ys@.len()
            },
            Err(InterpolateError::NonUniqueXs) => {
                &&& xs@.len() == ys@.len()
                &&& exists|i: int, j: int| 0 <= i < j < xs@.len() && xs@[i] == xs@[j]
            },
        },
{
    let fx: Vec<FieldElement<Babybear31PrimeField>> =
        xs.iter().map(|v| FieldElement::from(*v)).collect();
    let fy: Vec<FieldElement<Babybear31PrimeField>> =
        ys.iter().map(|v| FieldElement::from(*v)).collect();
    match Polynomial::interpolate(&fx, &fy) {
        Ok(p) => Ok(p.coefficients().iter().map(|c| c.representative().limbs[0]).collect()),
        Err(lambdaworks_math::polynomial::InterpolateError::UnequalLengths(a, b)) => {
            Err(InterpolateError::UnequalLengths(a, b))
        },
        Err(lambdaworks_math::polynomial::InterpolateError::NonUniqueXs) => {
            Err(InterpolateError::NonUniqueXs)
        },
    }
}

/// Relies on `lambdaworks_math::polynomial::Polynomial::long_division_with_remainder`:
/// for a divisor with an invertible leading coefficient it returns the unique
/// quotient and remainder with `p = q * d + rem` over the field and
/// `deg(rem) < deg(d)`.
#[verifier::external_body]
pub fn poly_div_rem(p: &Vec<u64>, d: &Vec<u64>) -> (r: (Vec<u64>, Vec<u64>))
    requires
        canon_p(p@),
        canon_p(d@),
        d@.len() > 0,
        d@[d@.len() - 1] != 0,
    ensures
        canon_p(r.0@),
        canon_p(r.1@),
        r.1@.len() < d@.len(),
        r.0@.len() + d@.len() <= p@.len() + 1 || r.0@.len() == 0,
        pcong(ints(p@), padd(pmul(ints(r.0@), ints(d@)), ints(r.1@))),
{
    let fp: Vec<FieldElement<Babybear31PrimeField>> =
        p.iter().map(|v| FieldElement::from(*v)).collect();
    let fd: Vec<FieldElement<Babybear31PrimeField>> =
        d.iter().map(|v| FieldElement::from(*v)).collect();
    let (q, rem) = Polynomial::new(&fp).long_division_with_remainder(&Polynomial::new(&fd));
    let qv: Vec<u64> = q.coefficients().iter().map(|c| c.representative().limbs[0]).collect();
    let rv: Vec<u64> = rem.coefficients().iter().map(|c| c.representative().limbs[0]).collect();
    (qv, rv)
}

} // verus!
