use sixel::Color;

#[test]
fn from_rgb_u8() {
    let actual = Color::from_rgb_u8([0, 128, !0]);
    let expected = Color::from_intensity([0, 50, 100]);
    assert_eq!(actual, expected);
}

#[test]
fn from_rgb_u8_rounds_down() {
    // 1 * 100 / 255 and 254 * 100 / 255 round down to 0 and 99.
    assert_eq!(Color::from_rgb_u8([1, 254, 3]).intensity(), [0, 99, 1]);
    for v in 0..=255u8 {
        let c = Color::from_rgb_u8([v, v, v]);
        let t = (v as u32 * 100 / 255) as u8;
        assert_eq!(c, Color::from_intensity([t, t, t]));
    }
}

#[test]
fn intensity_returns_channels() {
    assert_eq!(Color::from_intensity([1, 2, 100]).intensity(), [1, 2, 100]);
}

#[test]
fn difference_of_a_color_with_itself_is_zero() {
    let c = Color::from_intensity([12, 55, 100]);
    assert_eq!(c.difference(c), [0, 0, 0]);
}

#[test]
fn difference_is_symmetric_and_absolute() {
    let a = Color::from_intensity([10, 90, 50]);
    let b = Color::from_intensity([30, 20, 50]);
    assert_eq!(a.difference(b), [20, 70, 0]);
    assert_eq!(b.difference(a), [20, 70, 0]);
}

#[test]
fn from_array_rescales_like_from_rgb_u8() {
    assert_eq!(Color::from([0u8, 128, 255]), Color::from_intensity([0, 50, 100]));
}
