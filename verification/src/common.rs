//! Random sampling of field elements.

use vstd::prelude::*;
use rand::Rng;

verus! {

/// Relies on `rand::Rng::gen_range` over `rand::thread_rng`: the sample lies
/// in the requested inclusive range.  A sample is a small nonzero canonical
/// representative of the message field.
#[verifier::external_body]
pub fn sample_fr_elem_zp() -> (r: u64)
    ensures
        1 <= r <= 1000000,
{
    let mut rng = rand::thread_rng();
    rng.gen_range(1..=1000000)
}

/// Relies on `rand::Rng::gen_range` over `rand::thread_rng`: the sample lies
/// in the requested inclusive range.  A sample is a small nonzero canonical
/// representative of the encoding field.
#[verifier::external_body]
pub fn sample_fr_elem_zq() -> (r: u64)
    ensures
        1 <= r <= 1000000,
{
    let mut rng = rand::thread_rng();
    rng.gen_range(1..=1000000)
}

} // verus!
