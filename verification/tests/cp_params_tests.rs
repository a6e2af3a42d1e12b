use zkp_auth::cp_params::{is_cyclic_group_of_prime_order, ChaumPedersenParams};
use zkp_auth::scalar::Scalar;

fn s64(v: u64) -> Scalar {
    Scalar::from_u64(v)
}

fn create_test_params() -> ChaumPedersenParams {
    // Example parameters (usually these should be large prime numbers)
    ChaumPedersenParams::new(s64(10009), s64(5004), s64(2), s64(3))
}

// 2^127 - 1, a Mersenne prime wider than any machine word.
static M127: &str = "170141183460469231731687303715884105727";

#[test]
fn test_y1_y2() {
    let params = create_test_params();
    let x = s64(3);
    let (y1, y2) = params.y1_y2(&x);

    assert_eq!(y1, s64(8)); // 2 ^ 3
    assert_eq!(y2, s64(27)); // 3 ^ 3
}

#[test]
fn test_r1_r2() {
    let params = create_test_params();
    let k = s64(4);
    let (r1, r2) = params.r1_r2(&k);

    assert_eq!(r1, s64(16)); // 2 ^ 4
    assert_eq!(r2, s64(81)); // 3 ^ 4 = 81
}

#[test]
fn test_s() {
    let params = create_test_params();
    let k = s64(4);
    let c = s64(2);
    let x = s64(3);
    let s = params.s(&k, &c, &x);

    assert_eq!(s, s64(5002)); // 4 - (2 * 3) % 5004 = 5002
}

#[test]
fn test_with_prime_order_group() {
    //  10009 is a prime, and (10009-1)/2 = 5004 is a prime order for the group
    let prime = s64(10009);
    assert!(is_cyclic_group_of_prime_order(&prime));
}

#[test]
fn test_with_non_prime_order_group() {
    // 11 is a prime, but (11-1)/2 = 5 is not a prime order for the group
    let prime = s64(11);
    assert!(!is_cyclic_group_of_prime_order(&prime));
}

#[test]
fn test_response_is_canonical() {
    let params = create_test_params();
    // k == c * x: the response is 0, not q.
    assert_eq!(params.s(&s64(6), &s64(2), &s64(3)), s64(0));
    // k > c * x.
    assert_eq!(params.s(&s64(10), &s64(2), &s64(3)), s64(4));
    // Large products reduce into [0, q).
    let s = params.s(&s64(0), &s64(u64::MAX), &s64(u64::MAX));
    assert!(s.lt(&params.q));
}

#[test]
fn test_verify_commitments_accepts_honest_prover() {
    let params = create_test_params();
    let x = s64(3);
    let k = s64(4);
    let (y1, y2) = params.y1_y2(&x);
    let (r1, r2) = params.r1_r2(&k);
    for c in [0u64, 1, 2, 1000, 5003] {
        let c = s64(c);
        let s = params.s(&k, &c, &x);
        assert!(params.verify_commitments(&y1, &y2, &r1, &r2, &c, &s));
    }
}

#[test]
fn test_verify_commitments_rejects_wrong_secret() {
    let params = create_test_params();
    // The prover registered with x = 3 but answers with x' = 2 and c = 2:
    // s' = (4 - 2 * 2) mod 5004 = 0, and 2^0 * 8^2 = 64 != 16.
    let (y1, y2) = params.y1_y2(&s64(3));
    let (r1, r2) = params.r1_r2(&s64(4));
    let s_wrong = params.s(&s64(4), &s64(2), &s64(2));
    assert_eq!(s_wrong, s64(0));
    assert!(!params.verify_commitments(&y1, &y2, &r1, &r2, &s64(2), &s_wrong));
}

#[test]
fn test_large_group_round_trip() {
    // A group wider than any machine word: p = 2^127 - 1, q = 2^126 - 1.
    let p = Scalar::from_dec_str(M127).unwrap();
    let q = p.sub(&s64(1)).half();
    // 2 has order 127 modulo p, and 127 divides q, so 2^q = 1 (mod p);
    // the second generator 4 is a square, so it lies in the subgroup too.
    assert_eq!(s64(2).modpow(&q, &p), s64(1));
    assert_eq!(s64(4).modpow(&q, &p), s64(1));

    let params = ChaumPedersenParams::new(p, q, s64(2), s64(4));
    let (y1, y2) = params.y1_y2(&s64(3));
    assert_eq!(y1, s64(8));
    assert_eq!(y2, s64(64));

    // A full honest run with wide scalars for the nonce and challenge.
    let x = Scalar::from_dec_str("123456789012345678901234567890").unwrap();
    let k = Scalar::from_dec_str("998877665544332211998877665544332211").unwrap();
    let c = Scalar::from_dec_str("31415926535897932384626433832795").unwrap();
    let (y1, y2) = params.y1_y2(&x);
    let (r1, r2) = params.r1_r2(&k);
    let s = params.s(&k, &c, &x);
    assert!(params.verify_commitments(&y1, &y2, &r1, &r2, &c, &s));
}

#[test]
fn test_new_from_strings() {
    let params = ChaumPedersenParams::new_from_strings("10009", "5004", "2", "3").unwrap();
    assert_eq!(params.p, s64(10009));
    assert_eq!(params.q, s64(5004));
    assert_eq!(params.g, s64(2));
    assert_eq!(params.h, s64(3));

    // Values wider than a machine word load too.
    let params = ChaumPedersenParams::new_from_strings(M127, "5004", "2", "3").unwrap();
    assert_eq!(params.p, Scalar::from_dec_str(M127).unwrap());

    assert!(ChaumPedersenParams::new_from_strings("", "5004", "2", "3").is_none());
    assert!(ChaumPedersenParams::new_from_strings("10009", "5x04", "2", "3").is_none());
    assert!(ChaumPedersenParams::new_from_strings("10009", "5004", "-2", "3").is_none());
}

#[test]
fn test_to_env_string() {
    let params = create_test_params();
    assert_eq!(params.to_env_string(), "CP_P=10009\nCP_Q=5004\nCP_G=2\nCP_H=3\n");
}

#[test]
fn test_generate_params() {
    let params = zkp_auth::cp_params::generate_params().unwrap();
    assert_eq!(params.g, s64(5));
    assert_eq!(params.h, s64(7));
    // q = (p - 1) / 2, and p is odd, so 2q = p - 1.
    assert_eq!(params.q.mul(&s64(2)), params.p.sub(&s64(1)));
    // A 1024-bit prime: at least 2^1023 and below 2^1024.
    let two_pow_1023 = Scalar::from_bytes_be([vec![0x80u8], vec![0u8; 127]].concat());
    let two_pow_1024 = Scalar::from_bytes_be([vec![1u8], vec![0u8; 128]].concat());
    assert!(!params.p.lt(&two_pow_1023));
    assert!(params.p.lt(&two_pow_1024));
    assert!(is_cyclic_group_of_prime_order(&params.p));
}
