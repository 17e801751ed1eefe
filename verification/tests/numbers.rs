use burn_metal::bits::{
    is_positive_finite, is_positive_finite_double, pattern_greater, pattern_is_nan, pattern_key,
    pattern_magnitude,
};
use burn_metal::packing::{clamp_q4, pack_q4, unpack_q4, unpack_q8};
use burn_metal::ranking::FLOOR_KEY;

fn samples() -> Vec<f32> {
    vec![
        0.0,
        -0.0,
        1.0,
        -1.0,
        f32::MIN_POSITIVE,
        -f32::MIN_POSITIVE,
        1.0e-42,
        -1.0e-42,
        3.5,
        -3.5,
        f32::MAX,
        f32::MIN,
        f32::INFINITY,
        f32::NEG_INFINITY,
        -3.0e38,
    ]
}

#[test]
fn keys_order_patterns_like_values() {
    for a in samples() {
        for b in samples() {
            let (x, y) = (pattern_key(a.to_bits()), pattern_key(b.to_bits()));
            assert_eq!(a < b, x < y, "{a} {b}");
            assert_eq!(a == b, x == y, "{a} {b}");
            assert_eq!(a > b, pattern_greater(a.to_bits(), b.to_bits()));
        }
    }
}

#[test]
fn key_of_the_floor() {
    assert_eq!(pattern_key((-3.0e38f32).to_bits()), FLOOR_KEY);
    assert_eq!((-3.0e38f32).to_bits(), burn_metal::attention::FLOOR_BITS);
}

#[test]
fn nothing_is_greater_than_a_nan() {
    let nan = f32::NAN.to_bits();
    assert!(pattern_is_nan(nan));
    assert!(pattern_is_nan(nan | 0x8000_0000));
    assert!(!pattern_is_nan(f32::INFINITY.to_bits()));
    assert!(!pattern_greater(nan, 0));
    assert!(!pattern_greater(f32::INFINITY.to_bits(), nan));
}

#[test]
fn magnitude_clears_the_sign() {
    assert_eq!(pattern_magnitude((-2.5f32).to_bits()), 2.5f32.to_bits());
    assert_eq!(pattern_magnitude(2.5f32.to_bits()), 2.5f32.to_bits());
}

#[test]
fn positive_finite_patterns() {
    assert!(is_positive_finite(0.7f32.to_bits()));
    assert!(!is_positive_finite(0.0f32.to_bits()));
    assert!(!is_positive_finite((-0.7f32).to_bits()));
    assert!(!is_positive_finite(f32::INFINITY.to_bits()));
    assert!(!is_positive_finite(f32::NAN.to_bits()));
    assert!(is_positive_finite_double(1.0e-300f64.to_bits()));
    assert!(!is_positive_finite_double((-1.0f64).to_bits()));
    assert!(!is_positive_finite_double(f64::NAN.to_bits()));
}

#[test]
fn four_bit_words() {
    let word = pack_q4(&vec![0, 1, -1, 7, -7, 3, -8, 5]);
    assert_eq!(word, 0x5839_7f10);
    let back: Vec<i32> = (0..8).map(|k| unpack_q4(word, k)).collect();
    assert_eq!(back, vec![0, 1, -1, 7, -7, 3, -8, 5]);
}

#[test]
fn every_four_bit_value_survives_in_every_place() {
    for place in 0..8 {
        for quant in -8..8 {
            let mut quants = vec![-1; 8];
            quants[place] = quant;
            let word = pack_q4(&quants);
            for k in 0..8 {
                assert_eq!(unpack_q4(word, k), quants[k]);
            }
        }
    }
}

#[test]
fn repacking_gives_the_word_back() {
    for word in [0u32, 0xffff_ffff, 0x1234_5678, 0x8000_0001, 0xdead_beef] {
        let quants: Vec<i32> = (0..8).map(|k| unpack_q4(word, k)).collect();
        assert_eq!(pack_q4(&quants), word);
    }
}

#[test]
fn rounding_does_not_disturb_repacking() {
    let quants = vec![-7, -6, -5, -3, 1, 2, 4, 7];
    let word = pack_q4(&quants);
    for scale in [1.0e-45f32, 1.0e-42, f32::MIN_POSITIVE, 0.1, 1.0 / 3.0, 0.07, 12345.678, 4.8e37] {
        let again: Vec<i32> = (0..8)
            .map(|k| {
                let element = unpack_q4(word, k) as f32 * scale;
                clamp_q4((element / scale).round().to_bits()).unwrap()
            })
            .collect();
        assert_eq!(pack_q4(&again), word, "{scale}");
    }
    let scale = 3.0e38f32;
    assert_eq!(clamp_q4((2.0 * scale / scale).round().to_bits()), Some(7));
}

#[test]
fn eight_bit_words() {
    let word = 0x80ff_7f01;
    let quants: Vec<i32> = (0..4).map(|k| unpack_q8(word, k)).collect();
    assert_eq!(quants, vec![1, 127, -1, -128]);
}

#[test]
fn clamping_keeps_small_integers() {
    for n in -7i32..=7 {
        assert_eq!(clamp_q4((n as f32).to_bits()), Some(n));
    }
    assert_eq!(clamp_q4(8.0f32.to_bits()), Some(7));
    assert_eq!(clamp_q4((-100.0f32).to_bits()), Some(-7));
    assert_eq!(clamp_q4(f32::INFINITY.to_bits()), Some(7));
    assert_eq!(clamp_q4(f32::NEG_INFINITY.to_bits()), Some(-7));
    assert_eq!(clamp_q4((-0.0f32).to_bits()), Some(0));
    assert_eq!(clamp_q4(f32::NAN.to_bits()), None);
}

#[test]
fn clamping_drops_fractions() {
    let mut x = -9.0f32;
    while x < 9.0 {
        let expected = x.max(-7.0).min(7.0) as i32;
        assert_eq!(clamp_q4(x.to_bits()), Some(expected), "{x}");
        x += 0.125;
    }
}
