use concrete_quantizer::Double;

fn code(x: f64) -> i64 {
    Double::from_bits(x.to_bits()).to_code()
}

#[test]
fn halves_round_away_from_zero() {
    assert_eq!(code(0.5), 1);
    assert_eq!(code(-0.5), -1);
    assert_eq!(code(1.5), 2);
    assert_eq!(code(2.5), 3);
    assert_eq!(code(-2.5), -3);
    assert_eq!(code(-10.5), -11);
}

#[test]
fn values_round_to_the_nearest_integer() {
    assert_eq!(code(0.0), 0);
    assert_eq!(code(-0.0), 0);
    assert_eq!(code(0.49999999999999994), 0);
    assert_eq!(code(-0.49999999999999994), 0);
    assert_eq!(code(0.9), 1);
    assert_eq!(code(3.7), 4);
    assert_eq!(code(-3.2), -3);
    assert_eq!(code(254.50000000000003), 255);
    assert_eq!(code(1e15 + 0.25), 1_000_000_000_000_000);
    assert_eq!(code(4503599627370495.5), 4503599627370496);
    assert_eq!(code(-4503599627370495.5), -4503599627370496);
}

#[test]
fn large_integers_are_kept() {
    assert_eq!(code(4503599627370496.0), 4503599627370496);
    assert_eq!(code(9007199254740993.0), 9007199254740992);
    assert_eq!(code(4611686018427387904.0), 4611686018427387904);
    assert_eq!(code(-4611686018427387904.0), -4611686018427387904);
    assert_eq!(code(9223372036854774784.0), 9223372036854774784);
}

#[test]
fn values_beyond_the_codes_saturate() {
    assert_eq!(code(9223372036854775808.0), i64::MAX);
    assert_eq!(code(-9223372036854775808.0), i64::MIN);
    assert_eq!(code(1e19), i64::MAX);
    assert_eq!(code(-1e19), i64::MIN);
    assert_eq!(code(f64::MAX), i64::MAX);
    assert_eq!(code(f64::MIN), i64::MIN);
    assert_eq!(code(f64::INFINITY), i64::MAX);
    assert_eq!(code(f64::NEG_INFINITY), i64::MIN);
}

#[test]
fn tiny_values_have_code_zero() {
    assert_eq!(code(f64::MIN_POSITIVE), 0);
    assert_eq!(code(-f64::MIN_POSITIVE), 0);
    assert_eq!(code(f64::from_bits(1)), 0);
    assert_eq!(code(f64::from_bits(0x8000_0000_0000_0001)), 0);
    assert_eq!(code(1e-300), 0);
}

#[test]
fn nan_has_code_zero() {
    assert_eq!(code(f64::NAN), 0);
    assert_eq!(code(-f64::NAN), 0);
    assert_eq!(code(f64::from_bits(0x7ff0_0000_0000_0001)), 0);
    assert_eq!(code(f64::from_bits(0xffff_ffff_ffff_ffff)), 0);
}

#[test]
fn nan_is_told_from_numbers() {
    assert!(Double::from_bits(f64::NAN.to_bits()).is_not_a_number());
    assert!(Double::from_bits(0xfff8_0000_0000_0001).is_not_a_number());
    assert!(!Double::from_bits(f64::INFINITY.to_bits()).is_not_a_number());
    assert!(!Double::from_bits(f64::NEG_INFINITY.to_bits()).is_not_a_number());
    assert!(!Double::from_bits(0.0f64.to_bits()).is_not_a_number());
    assert!(!Double::from_bits(1.5f64.to_bits()).is_not_a_number());
}

#[test]
fn from_bits_keeps_the_bits() {
    assert_eq!(Double::from_bits(0x4059_0000_0000_0000).bits, 0x4059_0000_0000_0000);
    assert_eq!(Double::from_bits(100.0f64.to_bits()), Double { bits: 0x4059_0000_0000_0000 });
}

#[test]
fn codes_agree_with_the_machine_on_every_exponent() {
    for exponent in 0u64..2048 {
        for fraction in [
            0u64,
            1,
            0x8_0000_0000_0000,
            0x7_ffff_ffff_ffff,
            0x8_0000_0000_0001,
            0xf_ffff_ffff_ffff,
            0x5_5555_5555_5555,
        ] {
            for sign in [0u64, 1] {
                let bits = (sign << 63) | (exponent << 52) | fraction;
                let x = f64::from_bits(bits);
                assert_eq!(Double::from_bits(bits).to_code(), x.round() as i64, "bits {:#x}", bits);
            }
        }
    }
}

#[test]
fn codes_agree_with_the_machine_on_scattered_bits() {
    let mut state: u64 = 0x9e37_79b9_7f4a_7c15;
    for _ in 0..200_000 {
        state = state.wrapping_mul(6364136223846793005).wrapping_add(1442695040888963407);
        let bits = state;
        let x = f64::from_bits(bits);
        assert_eq!(Double::from_bits(bits).to_code(), x.round() as i64, "bits {:#x}", bits);
    }
}

#[test]
fn codes_agree_with_the_machine_near_halves() {
    for n in -2000i64..2000 {
        let x = n as f64 / 4.0;
        assert_eq!(code(x), x.round() as i64, "value {}", x);
        let below = f64::from_bits(x.to_bits().wrapping_sub(1));
        let above = f64::from_bits(x.to_bits().wrapping_add(1));
        assert_eq!(code(below), below.round() as i64, "value {}", below);
        assert_eq!(code(above), above.round() as i64, "value {}", above);
    }
}
