use dhchat::Lcg;

#[test]
fn seed_one_byte_sequence() {
    // Derived from the generator formula: state = (state * 1103515245 + 12345)
    // mod 2^32, output byte = (state >> 16) & 0xFF.
    let mut generator = Lcg::new(1);
    let expected = [0xC6, 0x7E, 0x81, 0x6B, 0x4B, 0xFB, 0xE2, 0xFB, 0x54, 0xF6];
    for &want in expected.iter() {
        assert_eq!(generator.next_byte(), want);
    }
}

#[test]
fn seed_two_byte_sequence() {
    let mut generator = Lcg::new(2);
    let expected = [0x8C, 0x21, 0xFF, 0x72, 0xED];
    for &want in expected.iter() {
        assert_eq!(generator.next_byte(), want);
    }
}

#[test]
fn identically_seeded_generators_agree() {
    let mut a = Lcg::new(0xDEADBEEF);
    let mut b = Lcg::new(0xDEADBEEF);
    for _ in 0..100 {
        assert_eq!(a.next_byte(), b.next_byte());
    }
}

#[test]
fn differently_seeded_generators_diverge() {
    let mut a = Lcg::new(1);
    let mut b = Lcg::new(2);
    let bytes_a: Vec<u8> = (0..8).map(|_| a.next_byte()).collect();
    let bytes_b: Vec<u8> = (0..8).map(|_| b.next_byte()).collect();
    assert_ne!(bytes_a, bytes_b);
}
