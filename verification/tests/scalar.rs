use ducky_learn::scalar::{
    magnitude, negative, positive, rank, zero, INFINITY, MAGNITUDE, PI, SMALL_NUMBER,
};

const SAMPLES: [f64; 15] = [
    f64::NEG_INFINITY,
    f64::MIN,
    -1e300,
    -2.5,
    -1.0,
    -f64::MIN_POSITIVE,
    -5e-324,
    -0.0,
    0.0,
    5e-324,
    f64::MIN_POSITIVE,
    1.0,
    2.5,
    f64::MAX,
    f64::INFINITY,
];

#[test]
fn verdicts_on_patterns_agree_with_float_comparison() {
    for value in SAMPLES {
        let bits = value.to_bits();
        assert_eq!(positive(bits), value > 0.0);
        assert_eq!(negative(bits), value < 0.0);
        assert_eq!(zero(bits), value == 0.0);
        assert_eq!(magnitude(bits), value.abs().to_bits());
    }
}

#[test]
fn ranks_of_patterns_follow_the_order_of_the_numbers() {
    for a in SAMPLES {
        for b in SAMPLES {
            assert_eq!(rank(a.to_bits()) < rank(b.to_bits()), a < b);
            assert_eq!(rank(a.to_bits()) == rank(b.to_bits()), a == b);
        }
    }
    assert_eq!(rank(0.0f64.to_bits()), 0);
    assert_eq!(rank((-0.0f64).to_bits()), 0);
    assert_eq!(rank(1.0f64.to_bits()), 0x3ff0_0000_0000_0000);
    assert_eq!(rank((-1.0f64).to_bits()), -0x3ff0_0000_0000_0000);
    assert_eq!(rank(f64::INFINITY.to_bits()), 0x7ff0_0000_0000_0000);
    assert_eq!(rank(u64::MAX), i64::MIN);
}

#[test]
fn what_is_not_a_number_is_neither_positive_nor_negative_nor_zero() {
    for bits in [f64::NAN.to_bits(), (-f64::NAN).to_bits(), 0x7ff0_0000_0000_0001, u64::MAX] {
        assert!(!positive(bits));
        assert!(!negative(bits));
        assert!(!zero(bits));
        assert_eq!(rank(bits), i64::MIN);
        for value in SAMPLES {
            assert!(rank(bits) < rank(value.to_bits()));
        }
    }
}

#[test]
fn masks_split_sign_and_magnitude() {
    assert_eq!(MAGNITUDE, u64::MAX >> 1);
    assert_eq!(INFINITY, f64::INFINITY.to_bits());
    assert_eq!(PI, std::f64::consts::PI.to_bits());
    assert_eq!(SMALL_NUMBER, 1e-9f64.to_bits());
    assert_eq!(magnitude(u64::MAX), MAGNITUDE);
    assert_eq!(magnitude(0), 0);
    assert_eq!(magnitude(1u64 << 63), 0);
}
