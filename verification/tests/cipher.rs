use dhchat::cipher::transform;
use dhchat::Lcg;

#[test]
fn round_trip_restores_message() {
    let message: Vec<u8> = b"attack at dawn".to_vec();
    let seed: u64 = 0xB9167F5A82DDB60B;
    let mut encrypt_gen = Lcg::new(seed);
    let ciphertext = transform(&message, &mut encrypt_gen);
    assert_ne!(ciphertext, message);
    let mut decrypt_gen = Lcg::new(seed);
    let plaintext = transform(&ciphertext, &mut decrypt_gen);
    assert_eq!(plaintext, message);
}

#[test]
fn round_trip_on_arbitrary_bytes() {
    let message: Vec<u8> = (0..=255).collect();
    let seed: u64 = 7;
    let mut g1 = Lcg::new(seed);
    let mut g2 = Lcg::new(seed);
    let once = transform(&message, &mut g1);
    let twice = transform(&once, &mut g2);
    assert_eq!(twice, message);
}

#[test]
fn transform_xors_against_keystream() {
    // Transforming zero bytes hands back the keystream itself.
    let zeros = vec![0u8; 3];
    let mut generator = Lcg::new(1);
    let out = transform(&zeros, &mut generator);
    assert_eq!(out, vec![0xC6, 0x7E, 0x81]);
}

#[test]
fn transform_advances_one_step_per_byte() {
    let mut g = Lcg::new(1);
    let _ = transform(&vec![0u8; 3], &mut g);
    // The next byte drawn is the fourth of the keystream for seed 1.
    assert_eq!(g.next_byte(), 0x6B);
}

#[test]
fn empty_message_leaves_generator_unchanged() {
    let mut transformed = Lcg::new(42);
    let out = transform(&Vec::new(), &mut transformed);
    assert_eq!(out.len(), 0);
    let mut untouched = Lcg::new(42);
    for _ in 0..16 {
        assert_eq!(transformed.next_byte(), untouched.next_byte());
    }
}
