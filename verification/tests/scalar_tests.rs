use zkp_auth::scalar::Scalar;

fn s64(v: u64) -> Scalar {
    Scalar::from_u64(v)
}

#[test]
fn test_bytes_round_trip() {
    assert_eq!(Scalar::from_bytes_be(vec![]), s64(0));
    assert_eq!(Scalar::from_bytes_be(vec![0x13, 0x8a]), s64(5002));
    // Leading zeros do not change the value.
    assert_eq!(Scalar::from_bytes_be(vec![0, 0, 0x13, 0x8a]), s64(5002));
    let wide = Scalar::from_bytes_be(vec![1, 0, 0, 0, 0, 0, 0, 0, 0]);
    assert!(s64(u64::MAX).lt(&wide));
    for v in [0u64, 1, 255, 256, 5002, u64::MAX] {
        let s = s64(v);
        assert_eq!(Scalar::from_bytes_be(s.to_bytes_be()), s);
    }
}

#[test]
fn test_scalar_dec_round_trip() {
    assert_eq!(Scalar::from_dec_str("0").unwrap(), s64(0));
    assert_eq!(Scalar::from_dec_str("007").unwrap(), s64(7));
    assert_eq!(Scalar::from_dec_str("10009").unwrap(), s64(10009));
    assert!(Scalar::from_dec_str("").is_none());
    assert!(Scalar::from_dec_str("12x").is_none());
    assert!(Scalar::from_dec_str("-1").is_none());

    let wide = "340282366920938463463374607431768211456"; // 2^128
    let w = Scalar::from_dec_str(wide).unwrap();
    assert_eq!(w.to_dec_string(), wide);
    assert_eq!(s64(0).to_dec_string(), "0");
    assert_eq!(s64(10009).to_dec_string(), "10009");
}

#[test]
fn test_arithmetic() {
    assert_eq!(s64(3).mul(&s64(4)), s64(12));
    assert_eq!(s64(10).sub(&s64(4)), s64(6));
    assert_eq!(s64(10).rem(&s64(3)), s64(1));
    assert_eq!(s64(11).half(), s64(5));
    assert_eq!(s64(2).modpow(&s64(10), &s64(10009)), s64(1024));
    assert_eq!(s64(2).modpow(&s64(5004), &s64(10009)), s64(1));
    assert!(s64(3).lt(&s64(4)));
    assert!(!s64(4).lt(&s64(4)));
    assert!(s64(0).is_zero());
    assert!(!s64(1).is_zero());
    // A product far beyond one machine word.
    let max = s64(u64::MAX);
    let sq = max.mul(&max);
    assert_eq!(sq.rem(&max), s64(0));
    assert_eq!(sq.to_dec_string(), "340282366920938463426481119284349108225");
}
