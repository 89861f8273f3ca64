use dither_bmp::dither::dither;
use dither_bmp::pixel::RGB;
use dither_bmp::quantize::QuantizationLevel;
use dither_bmp::surface::Surface;

fn grey(v: i32) -> RGB<i32> {
    RGB(v, v, v)
}

fn cells(s: &Surface<RGB<i32>>) -> Vec<RGB<i32>> {
    s.enumerate().into_iter().map(|(_, _, p)| p).collect()
}

#[test]
fn two_by_two_at_q6() {
    // (0,0): 200 -> 170, error 30: (1,0) += 13 -> 213, (0,1) += 9 -> 209, (1,1) += 1 -> 201
    // (1,0): 213 -> 255, error -42: (0,1) += -7 -> 202, (1,1) += -13 -> 188
    // (0,1): 202 -> 170, error 32: (1,1) += 14 -> 202
    // (1,1): 202 -> 170
    let mut s = Surface::new(2, 2, vec![grey(200); 4]);
    dither(&mut s, &QuantizationLevel::Q6);
    assert_eq!(cells(&s), vec![grey(170), grey(255), grey(170), grey(170)]);
}

#[test]
fn every_diffusion_weight_counts() {
    let data = vec![59, 90, 142, 184, 218, 42, 52, 83, 52];
    let mut s = Surface::new(3, 3, data.into_iter().map(grey).collect());
    dither(&mut s, &QuantizationLevel::Q6);
    let expected = vec![85, 85, 170, 170, 255, 0, 85, 85, 0];
    assert_eq!(cells(&s), expected.into_iter().map(grey).collect::<Vec<_>>());
}

#[test]
fn stored_value_is_clamped_error_is_not() {
    // 300 quantizes to 340 at Q6 and is stored as 255; the error is 300 - 340 = -40,
    // so the right neighbour gets -40*7/16 = -17: 50 - 17 = 33, which quantizes to 0
    let mut s = Surface::new(2, 1, vec![grey(300), grey(50)]);
    dither(&mut s, &QuantizationLevel::Q6);
    assert_eq!(cells(&s), vec![grey(255), grey(0)]);
}

#[test]
fn negative_errors_round_toward_zero() {
    // -20 quantizes to 0 with error -20: the right neighbour gets -20*7/16 = -8
    // (not -9), so 51 becomes 43, which rounds up to 85
    let mut s = Surface::new(2, 1, vec![RGB(-20, 0, 0), RGB(51, 0, 0)]);
    dither(&mut s, &QuantizationLevel::Q6);
    assert_eq!(cells(&s), vec![RGB(0, 0, 0), RGB(85, 0, 0)]);
}

#[test]
fn dithering_keeps_dimensions() {
    let mut s = Surface::new(3, 2, vec![grey(100); 6]);
    dither(&mut s, &QuantizationLevel::Q5);
    assert_eq!(s.width(), 3);
    assert_eq!(s.height(), 2);
    assert_eq!(s.enumerate().len(), 6);
}

#[test]
fn dithering_is_deterministic() {
    let data: Vec<RGB<i32>> = (0..12).map(|i| RGB(i * 20, 255 - i * 20, (i * 37) % 256)).collect();
    let mut a = Surface::new(4, 3, data.clone());
    let mut b = Surface::new(4, 3, data);
    dither(&mut a, &QuantizationLevel::Q7);
    dither(&mut b, &QuantizationLevel::Q7);
    assert_eq!(cells(&a), cells(&b));
}

#[test]
fn edges_stay_inside_the_surface() {
    for (w, h) in [(1u32, 1u32), (1, 4), (4, 1), (0, 3), (3, 0)] {
        let n = (w * h) as usize;
        let mut s = Surface::new(w, h, vec![grey(130); n]);
        dither(&mut s, &QuantizationLevel::Q7);
        assert_eq!(s.enumerate().len(), n);
        for (_, _, p) in s.enumerate() {
            assert!(p == grey(0) || p == grey(255));
        }
    }
}

#[test]
fn output_channels_are_on_the_grid() {
    let data: Vec<RGB<i32>> = (0..20).map(|i| RGB(i * 13, 250 - i * 11, 128)).collect();
    let mut s = Surface::new(5, 4, data);
    dither(&mut s, &QuantizationLevel::Q5);
    for (_, _, RGB(r, g, b)) in s.enumerate() {
        for c in [r, g, b] {
            assert!((0..=255).contains(&c));
            assert_eq!(c % 51, 0);
        }
    }
}
