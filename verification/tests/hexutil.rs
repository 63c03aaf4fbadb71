use dhchat::hexutil::{hex_to_bytes, parse_offset};

#[test]
fn decimal_offsets() {
    assert_eq!(parse_offset("0"), Ok(0));
    assert_eq!(parse_offset("123"), Ok(123));
    assert_eq!(parse_offset("18446744073709551615"), Ok(u64::MAX));
}

#[test]
fn hexadecimal_offsets() {
    assert_eq!(parse_offset("0x0"), Ok(0));
    assert_eq!(parse_offset("0x10"), Ok(16));
    assert_eq!(parse_offset("0x1F"), Ok(31));
    assert_eq!(parse_offset("0xdeadBEEF"), Ok(0xDEADBEEF));
    assert_eq!(parse_offset("0xFFFFFFFFFFFFFFFF"), Ok(u64::MAX));
}

#[test]
fn malformed_offsets_are_rejected() {
    assert!(parse_offset("").is_err());
    assert!(parse_offset("0x").is_err());
    assert!(parse_offset("12a").is_err());
    assert!(parse_offset("0xZZ").is_err());
    assert!(parse_offset("-1").is_err());
    assert!(parse_offset(" 12").is_err());
}

#[test]
fn overflowing_offsets_are_rejected() {
    assert!(parse_offset("18446744073709551616").is_err());
    assert!(parse_offset("0x10000000000000000").is_err());
    assert!(parse_offset("99999999999999999999999").is_err());
}

#[test]
fn hex_strings_decode_to_bytes() {
    assert_eq!(hex_to_bytes("48656C6C6F"), Ok(b"Hello".to_vec()));
    assert_eq!(hex_to_bytes("48 65 6c 6c 6f"), Ok(b"Hello".to_vec()));
    assert_eq!(hex_to_bytes("00ff10"), Ok(vec![0x00, 0xFF, 0x10]));
    assert_eq!(hex_to_bytes("A B"), Ok(vec![0xAB]));
    assert_eq!(hex_to_bytes(""), Ok(Vec::new()));
    assert_eq!(hex_to_bytes("   "), Ok(Vec::new()));
}

#[test]
fn malformed_hex_strings_are_rejected() {
    assert!(hex_to_bytes("ABC").is_err());
    assert!(hex_to_bytes("4G").is_err());
    assert!(hex_to_bytes("0x10").is_err());
}
