use pathtracer::scalar::{
    Scalar, HALF_BITS, HIDDEN_BIT, INFINITY_BITS, MAX_BITS, MIN_BITS, NEAR_BITS, ONE_BITS,
    SEVEN_TENTHS_BITS, SIGN_BIT, SIXTY_FOUR_BITS, THIN_BITS, TINY_BITS, ZERO_BITS,
};
use pathtracer::vector::{Color, Vector3};

fn s(x: f32) -> Scalar {
    Scalar::from_bits(x.to_bits())
}

fn f(x: Scalar) -> f32 {
    f32::from_bits(x.to_bits())
}

fn samples() -> Vec<f32> {
    vec![
        f32::NEG_INFINITY,
        f32::MIN,
        -300.0,
        -2.5,
        -1.0,
        -0.75,
        -1e-40,
        -0.0,
        0.0,
        1e-40,
        1e-8,
        0.001,
        0.5,
        0.999_999_94,
        1.0,
        1.5,
        3.75,
        127.99,
        254.999_98,
        255.0,
        255.5,
        256.0,
        1e9,
        f32::MAX,
        f32::INFINITY,
        f32::NAN,
        -f32::NAN,
    ]
}

#[test]
fn constants_are_the_encodings_they_name() {
    assert_eq!(ZERO_BITS, 0.0f32.to_bits());
    assert_eq!(ONE_BITS, 1.0f32.to_bits());
    assert_eq!(MAX_BITS, f32::MAX.to_bits());
    assert_eq!(MIN_BITS, f32::MIN.to_bits());
    assert_eq!(INFINITY_BITS, f32::INFINITY.to_bits());
    assert_eq!(TINY_BITS, 1e-8f32.to_bits());
    assert_eq!(NEAR_BITS, 0.001f32.to_bits());
    assert_eq!(THIN_BITS, 0.0001f32.to_bits());
    assert_eq!(HALF_BITS, 0.5f32.to_bits());
    assert_eq!(SEVEN_TENTHS_BITS, 0.7f32.to_bits());
    assert_eq!(SIXTY_FOUR_BITS, 64.0f32.to_bits());
    assert_eq!(SIGN_BIT, (-0.0f32).to_bits());
    assert_eq!(HIDDEN_BIT, 1u32 << 23);
    assert_eq!(Scalar::zero(), s(0.0));
    assert_eq!(Scalar::one(), s(1.0));
}

#[test]
fn bits_go_in_and_out_unchanged() {
    for bits in [0u32, 1, 0x3F80_0000, 0x7FC0_0000, 0x8000_0000, 0xFFFF_FFFF] {
        assert_eq!(Scalar::from_bits(bits).to_bits(), bits);
        assert_eq!(Scalar::from_bits(bits).bits, bits);
    }
}

#[test]
fn comparisons_follow_the_numbers() {
    for &a in samples().iter() {
        for &b in samples().iter() {
            assert_eq!(s(a).lt(s(b)), a < b, "{} < {}", a, b);
            assert_eq!(s(a).le(s(b)), a <= b, "{} <= {}", a, b);
            assert_eq!(s(a).gt(s(b)), a > b, "{} > {}", a, b);
            assert_eq!(s(a).ge(s(b)), a >= b, "{} >= {}", a, b);
            assert_eq!(s(a).same(s(b)), a == b, "{} == {}", a, b);
            assert_eq!(
                s(a).total_lt(s(b)),
                a.total_cmp(&b) == std::cmp::Ordering::Less,
                "{} before {}",
                a,
                b
            );
        }
    }
}

#[test]
fn classification_follows_the_numbers() {
    for &a in samples().iter() {
        assert_eq!(s(a).is_nan(), a.is_nan(), "{}", a);
        assert_eq!(s(a).is_finite(), a.is_finite(), "{}", a);
        assert_eq!(s(a).is_sign_negative(), a.is_sign_negative(), "{}", a);
    }
}

#[test]
fn positions_are_monotone() {
    let xs = samples();
    for &a in xs.iter() {
        for &b in xs.iter() {
            if a < b {
                assert!(s(a).position() < s(b).position(), "{} {}", a, b);
                assert!(s(a).total_position() < s(b).total_position(), "{} {}", a, b);
            }
        }
    }
    assert_eq!(s(0.0).position(), 0);
    assert_eq!(s(-0.0).position(), 0);
    assert_eq!(s(0.0).total_position(), 0);
    assert_eq!(s(-0.0).total_position(), -1);
    assert_eq!(s(1.0).position(), 0x3F80_0000);
    assert_eq!(s(-1.0).position(), -0x3F80_0000);
    assert_eq!(s(-1.0).total_position(), -0x3F80_0001);
}

#[test]
fn sign_flips_and_magnitudes_follow_the_numbers() {
    for &a in samples().iter() {
        assert_eq!(s(a).neg().to_bits(), (-a).to_bits(), "{}", a);
        assert_eq!(s(a).abs().to_bits(), a.abs().to_bits(), "{}", a);
        assert_eq!(s(a).neg().neg(), s(a));
    }
}

#[test]
fn min_and_max_take_the_number() {
    for &a in samples().iter() {
        for &b in samples().iter() {
            let lo = f(s(a).min(s(b)));
            let hi = f(s(a).max(s(b)));
            if a.is_nan() && b.is_nan() {
                assert!(lo.is_nan() && hi.is_nan());
            } else {
                assert_eq!(lo, a.min(b), "min {} {}", a, b);
                assert_eq!(hi, a.max(b), "max {} {}", a, b);
            }
            assert_eq!(s(a).min(s(b)), s(b).min(s(a)), "min {} {}", a, b);
            assert_eq!(s(a).max(s(b)), s(b).max(s(a)), "max {} {}", a, b);
        }
    }
}

#[test]
fn min_and_max_break_the_tie_of_the_zeros() {
    assert_eq!(s(0.0).min(s(-0.0)), s(-0.0));
    assert_eq!(s(-0.0).min(s(0.0)), s(-0.0));
    assert_eq!(s(0.0).max(s(-0.0)), s(0.0));
    assert_eq!(s(-0.0).max(s(0.0)), s(0.0));
}

#[test]
fn min_and_max_drop_what_is_no_number() {
    assert_eq!(s(f32::NAN).min(s(2.0)), s(2.0));
    assert_eq!(s(2.0).min(s(f32::NAN)), s(2.0));
    assert_eq!(s(f32::NAN).max(s(2.0)), s(2.0));
    assert_eq!(s(2.0).max(s(f32::NAN)), s(2.0));
    assert_eq!(s(-f32::NAN).min(s(f32::NEG_INFINITY)), s(f32::NEG_INFINITY));
    assert_eq!(s(f32::NAN).max(s(f32::INFINITY)), s(f32::INFINITY));
}

#[test]
fn min_and_max_may_be_regrouped() {
    let xs = samples();
    for &a in xs.iter() {
        for &b in xs.iter() {
            for &c in xs.iter() {
                assert_eq!(s(a).min(s(b)).min(s(c)), s(a).min(s(b).min(s(c))));
                assert_eq!(s(a).max(s(b)).max(s(c)), s(a).max(s(b).max(s(c))));
            }
        }
    }
}

#[test]
fn bytes_are_the_whole_part_held_to_a_byte() {
    for &a in samples().iter() {
        assert_eq!(s(a).to_u8(), a as u8, "{}", a);
    }
    assert_eq!(s(0.0).to_u8(), 0);
    assert_eq!(s(0.999_999_94).to_u8(), 0);
    assert_eq!(s(1.0).to_u8(), 1);
    assert_eq!(s(1.999).to_u8(), 1);
    assert_eq!(s(2.0).to_u8(), 2);
    assert_eq!(s(127.5).to_u8(), 127);
    assert_eq!(s(128.0).to_u8(), 128);
    assert_eq!(s(254.999_98).to_u8(), 254);
    assert_eq!(s(255.0).to_u8(), 255);
    assert_eq!(s(255.999).to_u8(), 255);
    assert_eq!(s(256.0).to_u8(), 255);
    assert_eq!(s(f32::INFINITY).to_u8(), 255);
    assert_eq!(s(-3.0).to_u8(), 0);
    assert_eq!(s(f32::NAN).to_u8(), 0);
}

#[test]
fn every_byte_is_reached_by_its_own_number() {
    for n in 0u16..=255 {
        let x = n as f32;
        assert_eq!(s(x).to_u8(), n as u8);
        assert_eq!(s(x + 0.5).to_u8(), n as u8);
    }
}

#[test]
fn bytes_agree_with_the_cast_on_many_patterns() {
    let mut bits: u32 = 0x1234_5678;
    for _ in 0..200_000 {
        bits = bits.wrapping_mul(1_664_525).wrapping_add(1_013_904_223);
        let x = f32::from_bits(bits);
        assert_eq!(Scalar::from_bits(bits).to_u8(), x as u8, "{:#x}", bits);
    }
    for bits in 0x4300_0000u32..0x4380_0100 {
        let x = f32::from_bits(bits);
        assert_eq!(Scalar::from_bits(bits).to_u8(), x as u8, "{:#x}", bits);
    }
}

#[test]
fn colours_turn_into_three_bytes() {
    let c = Color::new(s(0.0), s(127.9), s(300.0));
    assert_eq!(c.to_rgb8(), [0, 127, 255]);
    let gamma = |x: f32| x.sqrt() * 255.0;
    let c = Color::new(s(gamma(0.25)), s(gamma(1.0)), s(gamma(0.0)));
    assert_eq!(c.to_rgb8(), [127, 255, 0]);
}

#[test]
fn the_colours_of_the_sky() {
    assert_eq!(Color::white(), Color::new(s(1.0), s(1.0), s(1.0)));
    assert_eq!(Color::sky_blue(), Color::new(s(0.5), s(0.7), s(1.0)));
}

#[test]
fn black_is_zero_in_every_channel() {
    assert_eq!(Color::black(), Color::new(s(0.0), s(0.0), s(0.0)));
    assert_eq!(Color::black().0, Vector3::new(s(0.0), s(0.0), s(0.0)));
}

#[test]
fn vectors_give_their_components_by_axis() {
    let v = Vector3::new(s(1.0), s(2.0), s(3.0));
    assert_eq!(v.axis(0), s(1.0));
    assert_eq!(v.axis(1), s(2.0));
    assert_eq!(v.axis(2), s(3.0));
    assert_eq!(v.axis(7), s(1.0));
    assert_eq!(v.neg(), Vector3::new(s(-1.0), s(-2.0), s(-3.0)));
}

#[test]
fn near_zero_holds_below_the_threshold_on_every_axis() {
    assert!(Vector3::new(s(0.0), s(0.0), s(0.0)).near_zero());
    assert!(Vector3::new(s(9e-9), s(-9e-9), s(-0.0)).near_zero());
    assert!(!Vector3::new(s(1e-8), s(0.0), s(0.0)).near_zero());
    assert!(!Vector3::new(s(0.0), s(-1e-8), s(0.0)).near_zero());
    assert!(!Vector3::new(s(0.0), s(0.0), s(2e-8)).near_zero());
    assert!(!Vector3::new(s(f32::NAN), s(0.0), s(0.0)).near_zero());
}
