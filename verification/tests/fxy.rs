use rbufr::fxy::{FxyParseError, FXY};

#[test]
fn packs_fields_into_sixteen_bits() {
    assert_eq!(FXY::new(0, 1, 1).to_u32(), 257);
    assert_eq!(FXY::new(3, 63, 255).to_u32(), 0xFFFF);
    assert_eq!(FXY::new(1, 2, 16).to_u32(), (1 << 14) | (2 << 8) | 16);
}

#[test]
fn parses_six_digit_keys() {
    assert_eq!(FXY::from_str("010203"), Ok(FXY::new(1, 2, 3)));
    assert_eq!(FXY::from_str("001001"), Ok(FXY::new(0, 10, 1)));
    assert_eq!(FXY::from_str("00100"), Err(FxyParseError::Length));
    assert_eq!(FXY::from_str("0x1001"), Err(FxyParseError::FieldF));
    assert_eq!(FXY::from_str("00a001"), Err(FxyParseError::FieldX));
    assert_eq!(FXY::from_str("0010-a"), Err(FxyParseError::FieldY));
    assert_eq!(FXY::from_str("-1+2-3"), Ok(FXY::new(-1, 2, -3)));
}
