use zksnark::sap::SquareArithmeticProgram as SAP;
use zksnark::setup::{crs_messages, pow, setup};
use zksnark::test_ex::{new_test_first_constraint, new_test_r1cs, new_test_second_constraint};

#[test]
fn test_setup() {
    let _constraints = vec![new_test_first_constraint(), new_test_second_constraint()];
    let r1cs = new_test_r1cs();

    let sap = SAP::r1cs_to_sap(r1cs.clone());

    setup(sap);
}

#[test]
fn setup_returns_the_three_trust_domains() {
    let sap = SAP::r1cs_to_sap(new_test_r1cs());
    let (vrs, crs, td) = setup(sap);
    // verification reference string: the secret key of dimension 5
    assert_eq!(vrs.len(), 5);
    // trapdoor: beta, delta, s
    assert_eq!(td.len(), 3);
    // one encoded power per target coefficient
    assert_eq!(crs.delta_si.len(), 14);
    assert_eq!(crs.delta_si_t_sk.len(), 13);
    // one encoded scalar per witness position
    assert_eq!(crs.delta_wi_beta_vi.len(), 8);
    assert_eq!(crs.pk.n, 5);
    assert_eq!(crs.pk.p, 7);
    assert_eq!(crs.pk.q, 218);
}

#[test]
fn crs_messages_at_the_point_one() {
    let sap = SAP::r1cs_to_sap(new_test_r1cs());
    // 1 is an interpolation point, so T(1) = 0
    let msgs = crs_messages(&sap, 2, 3, 1);
    assert_eq!(msgs.delta_t_s_2, 0);
    assert_eq!(msgs.beta_t_sk, 0);
    assert_eq!(msgs.delta_si.len(), 14);
    // delta * 1^i
    for v in &msgs.delta_si {
        assert_eq!(*v, 2);
    }
    // delta * 1^i * T(1) = 0
    for v in &msgs.delta_si_t_sk {
        assert_eq!(*v, 0);
    }
    assert_eq!(msgs.delta_wi_beta_vi.len(), 8);
}

#[test]
fn pow_computes_small_powers() {
    assert_eq!(pow(3, 0), 1);
    assert_eq!(pow(3, 1), 3);
    assert_eq!(pow(3, 4), 81);
    assert_eq!(pow(2, 30), 1073741824);
}
