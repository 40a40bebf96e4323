use bhanm::ieee::{binary32_eq, binary32_neg, binary64_eq, ONE32, ONE64, ZERO32};
use bhanm::opacity::{alpha_to_opacity, opacity_to_alpha};

fn rounded(opacity: f64) -> u8 {
    f64::round(opacity * 255.) as u8
}

#[test]
fn every_byte_stands_for_its_quotient_by_255() {
    for b in 0..=255u8 {
        assert_eq!(alpha_to_opacity(b), (b as f64 / 255f64).to_bits(), "byte {b}");
    }
}

#[test]
fn every_byte_is_written_as_itself_again() {
    for b in 0..=255u8 {
        assert_eq!(opacity_to_alpha(alpha_to_opacity(b)), b);
    }
}

#[test]
fn the_ends_of_the_scale() {
    assert_eq!(alpha_to_opacity(0), 0f64.to_bits());
    assert_eq!(alpha_to_opacity(255), ONE64);
    assert_eq!(ONE64, 1f64.to_bits());
    assert_eq!(alpha_to_opacity(51), 0.2f64.to_bits());
    assert_eq!(opacity_to_alpha(0.5f64.to_bits()), 128);
    assert_eq!(opacity_to_alpha(0.25f64.to_bits()), 64);
    assert_eq!(opacity_to_alpha(1f64.to_bits()), 255);
    assert_eq!(opacity_to_alpha(0f64.to_bits()), 0);
}

#[test]
fn opacities_out_of_range_are_held_to_a_byte() {
    let samples = [
        -0.0,
        -0.001,
        -1.0,
        -1e300,
        f64::NEG_INFINITY,
        f64::NAN,
        -f64::NAN,
        1.0000000000000002,
        1.5,
        2.0,
        1e300,
        f64::INFINITY,
        f64::MIN_POSITIVE,
        5e-324,
        0.0019,
        0.00196,
        0.001960784313725,
        0.0019607843137254902,
        0.00197,
        0.999,
        0.9999999999999999,
        0.998,
        0.9980392156862745,
    ];
    for x in samples {
        assert_eq!(opacity_to_alpha(x.to_bits()), rounded(x), "opacity {x:e}");
    }
}

#[test]
fn opacities_around_each_half_step_round_as_the_product_does() {
    for k in 0..=255u32 {
        for shift in [-0.5f64, 0.5] {
            let middle = ((k as f64) + shift) / 255.0;
            let bits = middle.to_bits() as i64;
            for d in -40i64..=40 {
                let b = (bits + d) as u64;
                let x = f64::from_bits(b);
                assert_eq!(opacity_to_alpha(b), rounded(x), "bits {b:#x}");
            }
        }
    }
}

#[test]
fn a_product_that_rounds_up_to_a_half_goes_to_the_next_byte() {
    // 255 times this number is a shade under 135.5; as a binary64 product it
    // is 135.5, which is then rounded away from zero.
    let bits: u64 = 0x3fe1_0101_0101_0101;
    assert_eq!(rounded(f64::from_bits(bits)), 136);
    assert_eq!(opacity_to_alpha(bits), 136);
}

#[test]
fn a_sweep_of_opacities_agrees_with_the_arithmetic() {
    let mut state: u64 = 0x9e37_79b9_7f4a_7c15;
    for _ in 0..200_000 {
        state ^= state << 13;
        state ^= state >> 7;
        state ^= state << 17;
        let unit = (state >> 11) as f64 / (1u64 << 53) as f64;
        assert_eq!(opacity_to_alpha(unit.to_bits()), rounded(unit));
        assert_eq!(opacity_to_alpha(state), rounded(f64::from_bits(state)));
    }
}

#[test]
fn bits_are_compared_as_numbers() {
    let cases: [(f32, f32); 12] = [
        (0.0, 0.0),
        (0.0, -0.0),
        (-0.0, -0.0),
        (1.0, 1.0),
        (1.0, -1.0),
        (f32::NAN, f32::NAN),
        (f32::NAN, 0.0),
        (-f32::NAN, 1.0),
        (f32::INFINITY, f32::INFINITY),
        (f32::INFINITY, f32::NEG_INFINITY),
        (f32::MIN_POSITIVE, 0.0),
        (3.5, 3.5000002),
    ];
    for (a, b) in cases {
        assert_eq!(binary32_eq(a.to_bits(), b.to_bits()), a == b, "{a} {b}");
        assert_eq!(binary32_eq(b.to_bits(), a.to_bits()), b == a, "{b} {a}");
        let (a, b) = (a as f64, b as f64);
        assert_eq!(binary64_eq(a.to_bits(), b.to_bits()), a == b, "{a} {b}");
    }
    assert!(!binary32_eq(0x7fc0_0001, 0x7fc0_0001));
    assert!(!binary64_eq(0xfff8_0000_0000_0001, 0xfff8_0000_0000_0001));
}

#[test]
fn a_sign_is_flipped_in_the_top_bit() {
    for x in [0.0f32, -0.0, 1.0, -2.5, f32::INFINITY, f32::MAX, f32::MIN_POSITIVE] {
        assert_eq!(binary32_neg(x.to_bits()), (-x).to_bits());
    }
    assert_eq!(binary32_neg(0x7fc0_0000), 0xffc0_0000);
    assert_eq!(ONE32, 1f32.to_bits());
    assert_eq!(ZERO32, 0f32.to_bits());
}
