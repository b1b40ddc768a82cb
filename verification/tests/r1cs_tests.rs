use zksnark::r1cs::{inner_product, Constraint, CreationError, R1CS};
use zksnark::test_ex::{new_test_first_constraint, new_test_r1cs, new_test_second_constraint};

fn test_solution() -> Vec<u64> {
    vec![0, 1, 2, 3, 4, 12, 36]
}

#[test]
fn mul_vectors_2_2_3_3_equals_12() {
    let v1 = vec![2, 2];
    let v2 = vec![3, 3];

    assert_eq!(inner_product(&v1, &v2), 12);
}

#[test]
fn mul_vectors_3_5_equals_15() {
    let v1 = vec![3];
    let v2 = vec![5];

    assert_eq!(inner_product(&v1, &v2), 15);
}

#[test]
fn verify_solution_with_test_circuit_c5_constraints() {
    assert!(new_test_second_constraint().verify_solution(&test_solution()));
}

#[test]
fn verify_solution_with_test_circuit_c6_constraints() {
    assert!(new_test_second_constraint().verify_solution(&test_solution()));
}

#[test]
fn verify_bad_solution_with_test_circuit_c5_constraints() {
    let solution = vec![0, 0, 0, 4, 1, 0, 0];
    assert!(!new_test_first_constraint().verify_solution(&solution));
}

#[test]
fn verify_bad_solution_with_test_circuit_c6_constraints() {
    let solution = vec![0, 2, 1, 4, 5, 2, 2];
    assert!(!new_test_second_constraint().verify_solution(&solution));
}

#[test]
fn verify_solution_with_new_test_r1cs() {
    assert!(new_test_r1cs().verify_solution(&test_solution()))
}

#[test]
fn verify_bad_solution_with_new_test_r1cs() {
    let solution = vec![0, 2, 1, 4, 5, 2, 2];

    assert!(!new_test_r1cs().verify_solution(&solution))
}

#[test]
fn verify_bad_solution_because_of_second_constraint_with_new_test_r1cs() {
    let solution = vec![
        0,  // c0
        2,  // c1
        1,  // c2
        5,  // c3
        10, // c4
        50, // c5 = c4 * c3
        2,  // c6 != c5 * (c1+c2)
    ];
    assert!(!new_test_r1cs().verify_solution(&solution))
}

#[test]
fn verify_bad_solution_because_of_first_constraint_with_new_test_r1cs() {
    let solution = vec![
        0,  // c0
        1,  // c1
        1,  // c2
        5,  // c3
        10, // c4
        10, // c5 != c4 * c3
        19, // c6 = c5 * (c1+c2), so this should fail
    ];
    assert!(!new_test_r1cs().verify_solution(&solution))
}

#[test]
fn constraint_with_unequal_vectors_is_refused() {
    let r = Constraint::new(vec![1, 2], vec![3], vec![4, 5]);
    assert_eq!(r.unwrap_err(), CreationError::VectorsSizeMismatch);
}

#[test]
fn r1cs_with_too_many_ios_is_refused() {
    let constraints = vec![new_test_first_constraint(), new_test_second_constraint()];
    let r = R1CS::new(constraints, 4, 3);
    assert_eq!(r.unwrap_err(), CreationError::InputOutputTooBig);
}

#[test]
fn r1cs_with_unequal_constraint_lengths_is_refused() {
    let short = Constraint::new(vec![1], vec![2], vec![3]).unwrap();
    let constraints = vec![new_test_first_constraint(), short];
    let r = R1CS::new(constraints, 1, 1);
    assert_eq!(r.unwrap_err(), CreationError::VectorsSizeMismatch);
}

#[test]
fn matrixes_with_unequal_row_counts_are_refused() {
    let a = vec![vec![1, 0], vec![0, 1]];
    let b = vec![vec![1, 0]];
    let c = vec![vec![1, 0], vec![0, 1]];
    let r = R1CS::new_with_matrixes(a, b, c, 1, 0);
    assert_eq!(r.unwrap_err(), CreationError::MatrixesSizeMismatch);
}

#[test]
fn new_with_matrixes_round_trips_the_rows() {
    let r1cs = new_test_r1cs();
    let (a, b, c) = r1cs.constraints_to_matrix();
    let rebuilt = R1CS::new_with_matrixes(a, b, c, 4, 1).unwrap();
    assert_eq!(rebuilt.num_of_constraints(), 2);
    assert_eq!(rebuilt.witness_size(), 7);
    assert_eq!(rebuilt.num_instance_variables(), 5);
    assert_eq!(rebuilt.num_r1cs_aux_variables(), 2);
    assert!(rebuilt.verify_solution(&test_solution()));
}

#[test]
fn scenario_two_constraints_over_seven_slots() {
    // the witness [1, 1, 2, 3, 4, 12, 36] satisfies x3*x4 = x5 and
    // (x1+x2)*x5 = x6
    let good = vec![1, 1, 2, 3, 4, 12, 36];
    assert!(new_test_r1cs().verify_solution(&good));

    // the witness [1, 2, 1, 4, 5, 2, 2] violates both constraints
    let bad = vec![1, 2, 1, 4, 5, 2, 2];
    assert!(!new_test_first_constraint().verify_solution(&bad));
    assert!(!new_test_second_constraint().verify_solution(&bad));
    assert!(!new_test_r1cs().verify_solution(&bad));
}
