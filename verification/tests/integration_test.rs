use zksnark::field::MOD_P;
use zksnark::poly::poly_eval_p;
use zksnark::prover::prove;
use zksnark::sap::{extend_assignment, EvaluationError, SquareArithmeticProgram as SAP};
use zksnark::setup::setup;
use zksnark::test_ex::gen_sap_constraints;
use zksnark::test_ex::new_test_r1cs;
use zksnark::utils::{interpolate, poly_div_rem, InterpolateError};
use zksnark::verification::verify;

fn test_zksnark() {
    let r1cs = new_test_r1cs();
    let sap = SAP::r1cs_to_sap(r1cs.clone());

    // Setup: the secret key, the reference string and the trapdoor
    let (_vrs, crs, td) = setup(sap);
    let beta = td[0];
    let delta = td[1];

    // a satisfying assignment, extended with the slack variables
    let full = extend_assignment(&r1cs, &vec![1, 1, 2, 3, 4, 12, 36]);
    let u: Vec<u64> = full[0..4].to_vec();
    let w: Vec<u64> = full[4..].to_vec();

    let proof = prove(crs.clone(), u.clone(), w).unwrap();
    let _accepted = verify(proof.0, proof.1, u, crs, beta, delta);
}

#[test]
fn test_pinocchio_random_circuit() {
    test_zksnark();
}

#[test]
fn run_gen() {
    gen_sap_constraints();
}

#[test]
fn prove_refuses_mismatched_lengths() {
    let r1cs = new_test_r1cs();
    let sap = SAP::r1cs_to_sap(r1cs.clone());
    let (_vrs, crs, _td) = setup(sap);
    let r = prove(crs, vec![1, 2], vec![3]);
    assert_eq!(r.unwrap_err(), EvaluationError::LengthMismatch);
}

#[test]
fn prove_refuses_a_non_satisfying_witness() {
    let r1cs = new_test_r1cs();
    let sap = SAP::r1cs_to_sap(r1cs.clone());
    let (_vrs, crs, _td) = setup(sap);
    let mut full = extend_assignment(&r1cs, &vec![1, 1, 2, 3, 4, 12, 36]);
    full[4] = full[4] + 1;
    let u: Vec<u64> = full[0..4].to_vec();
    let w: Vec<u64> = full[4..].to_vec();
    let r = prove(crs, u, w);
    assert_eq!(r.unwrap_err(), EvaluationError::InexactPolynomialDivision);
}

#[test]
fn verify_accepts_exactly_the_balanced_equation() {
    let r1cs = new_test_r1cs();
    let sap = SAP::r1cs_to_sap(r1cs.clone());
    let (_vrs, crs, _td) = setup(sap);
    // with beta = 0 and delta = 0 both sides are zero for a = b = 0
    assert!(verify(0, 0, vec![], crs.clone(), 0, 0));
    // a = 1, beta = 0: left side 1, right side 0
    assert!(!verify(1, 0, vec![], crs, 0, 0));
}

#[test]
fn interpolate_matches_the_sample_points() {
    let xs = vec![0, 1, 2];
    let ys = vec![5, 7, 11];
    let c = interpolate(&xs, &ys).unwrap();
    assert_eq!(poly_eval_p(&c, 0), 5);
    assert_eq!(poly_eval_p(&c, 1), 7);
    assert_eq!(poly_eval_p(&c, 2), 11);
    // three points determine a quadratic: x^2 + x + 5
    assert_eq!(c, vec![5, 1, 1]);
}

#[test]
fn interpolate_reports_unequal_lengths() {
    let r = interpolate(&vec![0, 1], &vec![5]);
    assert_eq!(r.unwrap_err(), InterpolateError::UnequalLengths(2, 1));
}

#[test]
fn interpolate_reports_repeated_points() {
    let r = interpolate(&vec![0, 1, 1], &vec![5, 6, 7]);
    assert_eq!(r.unwrap_err(), InterpolateError::NonUniqueXs);
}

#[test]
fn poly_div_rem_splits_quotient_and_remainder() {
    // (x^2 - 1) / (x - 1) = x + 1 exactly
    let p = vec![MOD_P - 1, 0, 1];
    let d = vec![MOD_P - 1, 1];
    let (q, rem) = poly_div_rem(&p, &d);
    assert_eq!(q, vec![1, 1]);
    assert!(rem.is_empty());
    // (x^2) / (x - 1) = x + 1 with remainder 1
    let p2 = vec![0, 0, 1];
    let (q2, rem2) = poly_div_rem(&p2, &d);
    assert_eq!(q2, vec![1, 1]);
    assert_eq!(rem2, vec![1]);
}

#[test]
fn verify_balances_a_crafted_equation() {
    let sap = SAP::r1cs_to_sap(new_test_r1cs());
    let (_vrs, mut crs, _td) = setup(sap);
    crs.delta_wi_beta_vi = vec![2, 0, 0, 0, 0, 0, 0, 0];
    // A * (A + beta) = 2 * 5 = 10 and delta * (B + u0 * 2) = 2 * (1 + 4) = 10
    assert!(verify(2, 1, vec![2], crs.clone(), 3, 2));
    // changing the proof unbalances the equation
    assert!(!verify(2, 2, vec![2], crs, 3, 2));
}
