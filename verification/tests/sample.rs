use noise_field::{brightness, mean_of_four, sample_from_word, HALF, ONE};

#[test]
fn one_and_half_are_powers_of_two() {
    assert_eq!(ONE, 1u64 << 55);
    assert_eq!(HALF, 1u64 << 54);
    assert_eq!(HALF * 2, ONE);
}

#[test]
fn brightness_of_zero_is_zero() {
    assert_eq!(brightness(0), 0);
}

#[test]
fn brightness_of_one_is_255() {
    assert_eq!(brightness(ONE), 255);
}

#[test]
fn brightness_of_half_is_127() {
    assert_eq!(brightness(HALF), 127);
}

#[test]
fn brightness_cuts_the_fraction_off() {
    // 0.25 * 255 = 63.75, 0.75 * 255 = 191.25, 0.999.. * 255 = 254.99..
    assert_eq!(brightness(ONE / 4), 63);
    assert_eq!(brightness(ONE / 4 * 3), 191);
    assert_eq!(brightness(ONE - 1), 254);
    assert_eq!(brightness(ONE - 4), 254);
    // The smallest sample with luminance 1 is ceil(ONE / 255).
    let first: u64 = ONE / 255 + 1;
    assert_eq!(brightness(first - 1), 0);
    assert_eq!(brightness(first), 1);
}

#[test]
fn brightness_agrees_with_the_floor_of_the_product() {
    let samples: [u64; 6] = [0, 4, ONE / 8, ONE / 3, HALF + 12, ONE - 4];
    for value in samples {
        let expected = ((value as u128 * 255) >> 55) as u8;
        assert_eq!(brightness(value), expected);
    }
    // ONE / 3 is just short of a third: 84.99.. and not 85.
    assert_eq!(brightness(ONE / 3), 84);
    assert_eq!(brightness(ONE / 3 + 1), 85);
}

#[test]
fn brightness_of_short_fractions_agrees_with_floats() {
    for sixteenths in 0..=16u64 {
        let value = ONE / 16 * sixteenths;
        let as_float = sixteenths as f64 / 16.0;
        assert_eq!(brightness(value), (as_float * 255.0).floor() as u8);
    }
}

#[test]
fn brightness_above_one_keeps_the_low_byte() {
    // 2.0 * 255 = 510 = 256 + 254
    assert_eq!(brightness(2 * ONE), 254);
    // (1 + 1/255) * 255 = 256
    assert_eq!(brightness(ONE + ONE / 255 + 1), 0);
    assert_eq!(brightness(u64::MAX), ((u64::MAX as u128 * 255 >> 55) % 256) as u8);
}

#[test]
fn sample_from_word_takes_the_upper_53_bits() {
    assert_eq!(sample_from_word(0), 0);
    assert_eq!(sample_from_word(2047), 0);
    assert_eq!(sample_from_word(2048), 4);
    assert_eq!(sample_from_word(4095), 4);
    assert_eq!(sample_from_word(1u64 << 63), HALF);
    assert_eq!(sample_from_word(1u64 << 62), ONE / 4);
    assert_eq!(sample_from_word(u64::MAX), ONE - 4);
}

#[test]
fn sample_is_below_one_and_a_multiple_of_four() {
    let words: [u64; 5] = [1, 0xdead_beef_0bad_cafe, u64::MAX, 1 << 11, (1 << 63) + 12345];
    for word in words {
        let value = sample_from_word(word);
        assert!(value < ONE);
        assert_eq!(value % 4, 0);
    }
}

#[test]
fn sample_is_the_fraction_that_the_word_stands_for() {
    // The same 53 bits, read as a float in [0, 1).
    let words: [u64; 4] = [0, 0xdead_beef_0bad_cafe, u64::MAX, 0x0123_4567_89ab_cdef];
    for word in words {
        let as_float = (word >> 11) as f64 * (1.0 / (1u64 << 53) as f64);
        assert_eq!(sample_from_word(word) as f64 / ONE as f64, as_float);
    }
}

#[test]
fn mean_of_four_is_the_floor_of_the_quarter_sum() {
    assert_eq!(mean_of_four(0, 0, 0, 0), 0);
    assert_eq!(mean_of_four(4, 8, 12, 16), 10);
    assert_eq!(mean_of_four(1, 0, 0, 0), 0);
    assert_eq!(mean_of_four(1, 1, 1, 0), 0);
    assert_eq!(mean_of_four(1, 1, 1, 1), 1);
    assert_eq!(mean_of_four(HALF, ONE / 4 * 3, ONE / 4, HALF), HALF);
}

#[test]
fn mean_of_four_does_not_overflow() {
    assert_eq!(mean_of_four(u64::MAX, u64::MAX, u64::MAX, u64::MAX), u64::MAX);
    assert_eq!(mean_of_four(u64::MAX, u64::MAX, 0, 0), u64::MAX / 2);
}
