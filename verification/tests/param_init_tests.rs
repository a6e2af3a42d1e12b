use zkp_auth::arith::{mod_exp, mul_mod};
use zkp_auth::param_init::{check_if_group_prime_order, generate_params, generate_test_params};
use zkp_auth::scalar::Scalar;

fn s64(v: u64) -> Scalar {
    Scalar::from_u64(v)
}

#[test]
fn test_generate_test_params() {
    let p = generate_test_params();
    assert_eq!(p.p, s64(23));
    assert_eq!(p.q, s64(11));
    assert_eq!(p.g, s64(4));
    assert_eq!(p.h, s64(9));
    // The fixed test group really has the subgroup property.
    assert!(check_if_group_prime_order(&p.p));
}

#[test]
fn test_check_if_group_prime_order() {
    assert!(check_if_group_prime_order(&s64(10009)));
    assert!(!check_if_group_prime_order(&s64(11)));
    assert!(!check_if_group_prime_order(&s64(0)));
    assert!(!check_if_group_prime_order(&s64(1)));
}

#[test]
fn test_generate_params_bootstrap() {
    let params = generate_params().unwrap();
    assert_eq!(params.g, s64(2));
    assert_eq!(params.h, s64(3));
    // q = (p - 1) / 2, and p is odd, so 2q = p - 1.
    assert_eq!(params.q.mul(&s64(2)), params.p.sub(&s64(1)));
    // A 128-bit prime: at least 2^127 and below 2^128.
    let two_pow_127 = Scalar::from_bytes_be([vec![0x80u8], vec![0u8; 15]].concat());
    let two_pow_128 = Scalar::from_bytes_be([vec![1u8], vec![0u8; 16]].concat());
    assert!(!params.p.lt(&two_pow_127));
    assert!(params.p.lt(&two_pow_128));
    assert!(check_if_group_prime_order(&params.p));
}

#[test]
fn test_mod_exp() {
    assert_eq!(mod_exp(2, 3, 10009), 8);
    assert_eq!(mod_exp(3, 4, 10009), 81);
    assert_eq!(mod_exp(2, 0, 10009), 1);
    assert_eq!(mod_exp(0, 0, 7), 1);
    assert_eq!(mod_exp(5, 1, 1), 0);
    assert_eq!(mod_exp(2, 5004, 10009), 1);
    assert_eq!(mod_exp(3, 5004, 10009), 1);
    // Exponentiation that overflows without modular reduction.
    assert_eq!(mod_exp(u64::MAX, u64::MAX, 10009), mod_exp(u64::MAX % 10009, u64::MAX, 10009));
}

#[test]
fn test_mul_mod() {
    assert_eq!(mul_mod(3, 4, 10009), 12);
    assert_eq!(mul_mod(u64::MAX, u64::MAX, u64::MAX), 0);
    assert_eq!(mul_mod(u64::MAX - 1, u64::MAX - 1, u64::MAX), 1);
}
