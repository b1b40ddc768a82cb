use zksnark::field::{MOD_P, MOD_Q};
use zksnark::lwe::{inner_product, LWE};
use zksnark::test_ex::check_lwe;

#[test]
fn run_check_lwe() {
    check_lwe();
}

#[test]
fn check_lwe_round_trips() {
    assert!(check_lwe());
}

#[test]
fn encode_with_is_the_masked_message() {
    let lwe = LWE::new(2, MOD_P, MOD_Q, 0);
    let s = vec![10, 20];
    let a = vec![5, 6];
    // c1 = <a,s> + p*0 + m = 50 + 120 + 42
    let (c0, c1) = lwe.encode_with(42, &s, &a, 0);
    assert_eq!(c1, 212);
    assert_eq!(c0, vec![MOD_Q - 5, MOD_Q - 6]);
}

#[test]
fn encode_with_lifts_the_noise_by_the_message_modulus() {
    let lwe = LWE::new(1, MOD_P, MOD_Q, 3);
    let s = vec![0];
    let a = vec![0];
    // c1 = 0 + p*e + m
    let (_c0, c1) = lwe.encode_with(7, &s, &a, 3);
    assert_eq!(c1 as u128, 3 * MOD_P as u128 + 7);
}

#[test]
fn decode_removes_the_mask_and_reduces() {
    let lwe = LWE::new(2, MOD_P, MOD_Q, 0);
    let s = vec![10, 20];
    // c1 - <c0,s> = 212 - 170 = 42
    let decoded = lwe.decode(&s, &vec![5, 6], 212);
    assert_eq!(decoded, 42);
    // a value above the message modulus is reduced into the field
    let decoded2 = lwe.decode(&s, &vec![0, 0], MOD_P + 9);
    assert_eq!(decoded2, 9);
}

#[test]
fn encode_then_decode_after_negating_returns_the_message() {
    let lwe = LWE::new(5, MOD_P, MOD_Q, 18447);
    let s = lwe.key_gen();
    let m = 123456;
    let (c0, c1) = lwe.encode(m, &s);
    let c0_neg: Vec<u64> = c0.iter().map(|v| (MOD_Q - v) % MOD_Q).collect();
    assert_eq!(lwe.decode(&s, &c0_neg, c1), m);
}

#[test]
fn key_gen_samples_small_nonzero_elements() {
    let lwe = LWE::new(8, MOD_P, MOD_Q, 0);
    let s = lwe.key_gen();
    assert_eq!(s.len(), 8);
    for v in s {
        assert!(1 <= v && v <= 1000000);
    }
}

#[test]
fn inner_product_truncates_to_the_shorter_vector() {
    let v1 = vec![2, 3, 100];
    let v2 = vec![4, 5];
    assert_eq!(inner_product(&v1, &v2), 23);
}

#[test]
fn samplers_stay_in_their_range() {
    for _ in 0..32 {
        let p = zksnark::common::sample_fr_elem_zp();
        assert!(1 <= p && p <= 1000000);
        let q = zksnark::common::sample_fr_elem_zq();
        assert!(1 <= q && q <= 1000000);
    }
}
