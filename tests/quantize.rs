use dither_bmp::pixel::RGB;
use dither_bmp::quantize::{QuantizationLevel, Quantize};

const LEVELS: [QuantizationLevel; 8] = [
    QuantizationLevel::Q0,
    QuantizationLevel::Q1,
    QuantizationLevel::Q2,
    QuantizationLevel::Q3,
    QuantizationLevel::Q4,
    QuantizationLevel::Q5,
    QuantizationLevel::Q6,
    QuantizationLevel::Q7,
];

#[test]
fn num_values_table() {
    let expected = [255u8, 86, 52, 18, 16, 6, 4, 2];
    for (q, n) in LEVELS.iter().zip(expected.iter()) {
        assert_eq!(q.num_values(), *n);
    }
}

#[test]
fn finest_level_keeps_every_value() {
    for x in 0u8..=254 {
        assert_eq!(x.quantize(&QuantizationLevel::Q0), x);
    }
    assert_eq!(255u8.quantize(&QuantizationLevel::Q0), 255);
}

#[test]
fn quantized_values_lie_on_the_grid() {
    for q in LEVELS.iter() {
        let step = 255 / (q.num_values() - 1);
        for x in 0u8..=255 {
            let v = x.quantize(q);
            assert_eq!(v % step, 0);
            assert!((v as i32 - x as i32).abs() <= (step / 2) as i32 + 1);
        }
    }
}

#[test]
fn quantize_rounds_to_nearest_with_ties_up() {
    // grid spacing 85 at Q6: 200 = 2 * 85 + 30, and 30 <= 42
    assert_eq!(200u8.quantize(&QuantizationLevel::Q6), 170);
    // 213 = 2 * 85 + 43, and 43 > 42
    assert_eq!(213u8.quantize(&QuantizationLevel::Q6), 255);
    // grid spacing 255 at Q7: 127 rounds down, 128 rounds up
    assert_eq!(127u8.quantize(&QuantizationLevel::Q7), 0);
    assert_eq!(128u8.quantize(&QuantizationLevel::Q7), 255);
    // grid spacing 17 at Q4: remainder 8 rounds down, 9 rounds up
    assert_eq!(25u8.quantize(&QuantizationLevel::Q4), 17);
    assert_eq!(26u8.quantize(&QuantizationLevel::Q4), 34);
}

#[test]
fn wide_samples_are_quantized_unclamped() {
    assert_eq!((-40i32).quantize(&QuantizationLevel::Q6), 0);
    assert_eq!(300i32.quantize(&QuantizationLevel::Q6), 340);
    assert_eq!(100i32.quantize(&QuantizationLevel::Q6), 85);
    // quotient and remainder round toward zero: -100 = -1 * 85 - 15
    assert_eq!((-100i32).quantize(&QuantizationLevel::Q6), -85);
    assert_eq!(i32::MAX.quantize(&QuantizationLevel::Q6), 2147483605);
    for x in 0i32..=255 {
        assert_eq!(x.quantize(&QuantizationLevel::Q3), (x as u8).quantize(&QuantizationLevel::Q3) as i32);
    }
}

#[test]
fn pixels_quantize_channel_by_channel() {
    let p = RGB(200, -5, 300);
    assert_eq!(p.quantize(&QuantizationLevel::Q6), RGB(170, 0, 340));
}

#[test]
fn levels_by_number() {
    for (n, q) in LEVELS.iter().enumerate() {
        assert_eq!(QuantizationLevel::from_number(n as i32), *q);
    }
    assert_eq!(QuantizationLevel::from_number(8), QuantizationLevel::Q4);
    assert_eq!(QuantizationLevel::from_number(-1), QuantizationLevel::Q4);
}
