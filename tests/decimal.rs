use sixel::decimal::push_decimal;

#[test]
fn decimal_digits_are_appended() {
    let mut out = b"x".to_vec();
    push_decimal(&mut out, 0);
    push_decimal(&mut out, 7);
    out.push(b';');
    push_decimal(&mut out, 1234);
    assert_eq!(out, b"x07;1234".to_vec());
    let mut big = Vec::new();
    push_decimal(&mut big, usize::MAX);
    assert_eq!(big, usize::MAX.to_string().into_bytes());
}
