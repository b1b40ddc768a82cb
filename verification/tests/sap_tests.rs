use zksnark::field::{mul_p, sub_p, MOD_P};
use zksnark::poly::poly_eval_p;
use zksnark::r1cs::R1CS;
use zksnark::sap::{eval, extend_assignment, EvaluationError, SquareArithmeticProgram};
use zksnark::test_ex::{new_test_first_constraint, new_test_r1cs, new_test_second_constraint};

#[test]
fn matrix_constraints() {
    let constraints = vec![new_test_first_constraint(), new_test_second_constraint()];
    let r1cs = R1CS::new(constraints, 4, 1).unwrap();

    r1cs.constraints_to_matrix();
}

#[test]
fn r1cs_to_sap_test_with_evaluation() {
    let _constraints = vec![new_test_first_constraint(), new_test_second_constraint()];
    let r1cs = new_test_r1cs();

    let sap = SquareArithmeticProgram::r1cs_to_sap(r1cs.clone());

    // instance plus witness
    let mut full_input: Vec<u64> = vec![1, 3, 5, 4, 2, 8, 64];

    let (a, b, _c) = r1cs.constraints_to_matrix();

    // extra_var = (a_i - b_i)^2
    let temp: Vec<u64> = a
        .iter()
        .zip(b.iter())
        .map(|(a_i, b_i)| {
            let extra_var = sub_p(eval(a_i, &full_input), eval(b_i, &full_input));
            mul_p(extra_var, extra_var)
        })
        .collect();

    full_input.extend(temp);

    // extra_var = (x_i - 1)^2
    for i in 1..sap.num_instance_variables {
        let extra_var = sub_p(full_input[i], 1);
        full_input.push(mul_p(extra_var, extra_var));
    }

    let _ = sap.p_polinomial(&full_input);
}

#[test]
fn sap_shape_matches_the_reduction() {
    let sap = SquareArithmeticProgram::r1cs_to_sap(new_test_r1cs());
    // m = 2 constraints, 5 instance variables, 2 auxiliary variables
    assert_eq!(sap.num_r1cs_constraints, 2);
    assert_eq!(sap.num_instance_variables, 5);
    assert_eq!(sap.num_r1cs_witness_variables, 2);
    // sap variables: 2 + 2*4 + 2 = 12, plus the constant wire
    assert_eq!(sap.u_polynomials.len(), 13);
    assert_eq!(sap.w_polynomials.len(), 13);
    // 13 interpolation points, so the target has degree 13
    assert_eq!(sap.target.len(), 14);
    // the target vanishes on every interpolation point
    for k in 0..13u64 {
        assert_eq!(poly_eval_p(&sap.target, k), 0);
    }
    assert_ne!(poly_eval_p(&sap.target, 13), 0);
}

#[test]
fn extend_assignment_computes_the_slack_values() {
    let r1cs = new_test_r1cs();
    let x = vec![1, 1, 2, 3, 4, 12, 36];
    let full = extend_assignment(&r1cs, &x);
    // the wires past the constant, one slack square per constraint
    // ((3-4)^2 = 1, (3-12)^2 = 81), then (x_i - 1)^2 for the four inputs
    assert_eq!(full, vec![1, 2, 3, 4, 12, 36, 1, 81, 0, 1, 4, 9]);
}

#[test]
fn p_polinomial_vanishes_on_the_interpolation_points() {
    let r1cs = new_test_r1cs();
    let sap = SquareArithmeticProgram::r1cs_to_sap(r1cs.clone());
    let full = extend_assignment(&r1cs, &vec![1, 1, 2, 3, 4, 12, 36]);
    let p = sap.p_polinomial(&full).unwrap();
    for k in 0..13u64 {
        assert_eq!(poly_eval_p(&p, k), 0);
    }
}

#[test]
fn h_polinomial_divides_exactly_on_a_satisfying_assignment() {
    let r1cs = new_test_r1cs();
    let sap = SquareArithmeticProgram::r1cs_to_sap(r1cs.clone());
    let full = extend_assignment(&r1cs, &vec![1, 1, 2, 3, 4, 12, 36]);
    assert!(sap.h_polinomial(&full).is_ok());
}

#[test]
fn h_polinomial_leaves_a_remainder_on_a_bad_assignment() {
    let r1cs = new_test_r1cs();
    let sap = SquareArithmeticProgram::r1cs_to_sap(r1cs.clone());
    let mut full = extend_assignment(&r1cs, &vec![1, 1, 2, 3, 4, 12, 36]);
    // corrupt one wire value
    full[4] = (full[4] + 1) % MOD_P;
    assert_eq!(
        sap.h_polinomial(&full).unwrap_err(),
        EvaluationError::InexactPolynomialDivision
    );
}

#[test]
fn p_polinomial_refuses_a_wrong_assignment_length() {
    let sap = SquareArithmeticProgram::r1cs_to_sap(new_test_r1cs());
    let too_short = vec![1, 2, 3];
    assert_eq!(
        sap.p_polinomial(&too_short).unwrap_err(),
        EvaluationError::LengthMismatch
    );
    assert_eq!(
        sap.h_polinomial(&too_short).unwrap_err(),
        EvaluationError::LengthMismatch
    );
}
