use bare_metal::decimal::u32_to_decimal;

#[test]
fn decimal_examples() {
    assert_eq!(u32_to_decimal(0), b"0".to_vec());
    assert_eq!(u32_to_decimal(7), b"7".to_vec());
    assert_eq!(u32_to_decimal(10), b"10".to_vec());
    assert_eq!(u32_to_decimal(42), b"42".to_vec());
    assert_eq!(u32_to_decimal(1000), b"1000".to_vec());
    assert_eq!(u32_to_decimal(u32::MAX), b"4294967295".to_vec());
}

#[test]
fn decimal_matches_std() {
    for n in [1u32, 9, 99, 100, 12345, 65536, 1_000_000_007, 4_000_000_000].iter() {
        assert_eq!(u32_to_decimal(*n), n.to_string().into_bytes());
    }
}
