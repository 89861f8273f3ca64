use dither_bmp::clamped::Clamped;

#[test]
fn clamped_value_is_correct() {
    assert_eq!(0, Clamped(0).clamped_value());
    assert_eq!(0, Clamped(-1).clamped_value());
    assert_eq!(0, Clamped(-3221930293).clamped_value());

    assert_eq!(1, Clamped(1).clamped_value());
    assert_eq!(154, Clamped(154).clamped_value());
    assert_eq!(255, Clamped(255).clamped_value());

    assert_eq!(255, Clamped(256).clamped_value());
    assert_eq!(255, Clamped(1023).clamped_value());
    assert_eq!(255, Clamped(29313293).clamped_value());
}

#[test]
fn clamped_arithmetic() {
    assert_eq!(Clamped(300).add(Clamped(-50)).unclamped_value(), 250);
    assert_eq!(Clamped(10).sub(Clamped(30)).unclamped_value(), -20);
    assert_eq!(Clamped(-30).mul(7).unclamped_value(), -210);
    assert_eq!(Clamped(-210).div(16).unclamped_value(), -13);
    assert_eq!(Clamped(210).div(16).unclamped_value(), 13);
    assert_eq!(Clamped(i64::MAX).add(Clamped(1)).unclamped_value(), i64::MAX);
    assert_eq!(Clamped(i64::MIN).sub(Clamped(1)).unclamped_value(), i64::MIN);
    assert_eq!(Clamped(i64::MIN).div(-1).unclamped_value(), i64::MAX);
    assert_eq!(Clamped::from(200u8).unclamped_value(), 200);
}
