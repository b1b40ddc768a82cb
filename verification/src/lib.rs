//! A research SNARK whose trusted setup and verification equation are built
//! from a noisy linear encoding (LWE) instead of bilinear pairings.
//!
//! A circuit is given as a rank-1 constraint system (R1CS), reduced to a
//! square arithmetic program (SAP), and proved with scalars that the setup
//! has encoded under an LWE secret key.

pub mod field;
pub mod poly;
pub mod utils;
pub mod common;
pub mod r1cs;
pub mod sap;
pub mod lwe;
pub mod setup;
pub mod prover;
pub mod verification;
pub mod test_ex;
