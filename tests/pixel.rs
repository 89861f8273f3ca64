use dither_bmp::pixel::RGB;

#[test]
fn channel_arithmetic() {
    assert_eq!(RGB(1, 2, 3).add(RGB(10, 20, 30)), RGB(11, 22, 33));
    assert_eq!(RGB(200, 200, 200).sub(RGB(170, 255, 0)), RGB(30, -55, 200));
    assert_eq!(RGB(30, -42, 0).mul(7), RGB(210, -294, 0));
    assert_eq!(RGB(210, -210, 15).div(16), RGB(13, -13, 0));
    let mut p = RGB(1, 1, 1);
    p.add_assign(RGB(2, 3, 4));
    assert_eq!(p, RGB(3, 4, 5));
}

#[test]
fn channel_arithmetic_saturates() {
    assert_eq!(RGB(i32::MAX, 0, 0).add(RGB(1, 0, 0)), RGB(i32::MAX, 0, 0));
    assert_eq!(RGB(i32::MIN, 0, 0).sub(RGB(1, 0, 0)), RGB(i32::MIN, 0, 0));
    assert_eq!(RGB(i32::MAX, i32::MIN, 2).mul(7), RGB(i32::MAX, i32::MIN, 14));
    assert_eq!(RGB(i32::MIN, 0, 0).div(-1), RGB(i32::MAX, 0, 0));
}

#[test]
fn diffusion_shares_of_an_error() {
    let e = RGB(30, 30, 30);
    assert_eq!(e.mul(7).div(16), RGB(13, 13, 13));
    assert_eq!(e.mul(3).div(16), RGB(5, 5, 5));
    assert_eq!(e.mul(5).div(16), RGB(9, 9, 9));
    assert_eq!(e.mul(1).div(16), RGB(1, 1, 1));
}

#[test]
fn clamping_into_bytes() {
    assert_eq!(RGB(340, -85, 17).clamped(), RGB(255, 0, 17));
}
