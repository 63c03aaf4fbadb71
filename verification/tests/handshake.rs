use dhchat::handshake::{
    accept_peer_public, compute_shared_secret, decode_public_key, encode_public_key,
    establish_session, generate_keypair, make_keypair, TransportError, G, P,
};
use dhchat::{mod_pow, Lcg};

#[test]
fn encode_is_big_endian() {
    assert_eq!(
        encode_public_key(P),
        vec![0xD8, 0x7F, 0xA3, 0xE2, 0x91, 0xB4, 0xC7, 0xF3]
    );
    assert_eq!(encode_public_key(2), vec![0, 0, 0, 0, 0, 0, 0, 2]);
}

#[test]
fn decode_inverts_encode() {
    for &x in &[0u64, 1, 2, 0xFF, 0x0102030405060708, P, u64::MAX] {
        let bytes = encode_public_key(x);
        assert_eq!(decode_public_key(&bytes), x);
    }
}

#[test]
fn make_keypair_derives_public_value() {
    let kp = make_keypair(1);
    assert_eq!(kp.private_key, 1);
    assert_eq!(kp.public_key, 2);
    let kp = make_keypair(123456789);
    assert_eq!(kp.public_key, 0x32569A33A4A39FB7);
}

#[test]
fn generated_keypair_is_consistent() {
    let kp = generate_keypair();
    assert_eq!(kp.public_key, mod_pow(G, kp.private_key, P));
}

#[test]
fn shared_secret_agrees_on_both_sides() {
    let a = make_keypair(123456789);
    let b = make_keypair(987654321);
    let secret_a = compute_shared_secret(b.public_key, a.private_key);
    let secret_b = compute_shared_secret(a.public_key, b.private_key);
    assert_eq!(secret_a, secret_b);
}

#[test]
fn accept_full_public_value() {
    let bytes = encode_public_key(0xCAFEBABE);
    assert_eq!(accept_peer_public(&bytes), Ok(0xCAFEBABE));
}

#[test]
fn accept_rejects_short_read() {
    assert_eq!(
        accept_peer_public(&vec![1, 2, 3]),
        Err(TransportError::ShortRead)
    );
    assert_eq!(accept_peer_public(&Vec::new()), Err(TransportError::ShortRead));
    assert_eq!(
        accept_peer_public(&vec![0; 9]),
        Err(TransportError::ShortRead)
    );
}

#[test]
fn establish_session_seeds_generator_with_secret() {
    let private_key: u64 = 123456789;
    let their_public: u64 = 0x1205521AEE074B4D;
    let received = encode_public_key(their_public);
    let mut generator = establish_session(private_key, &received).unwrap();
    let secret = compute_shared_secret(their_public, private_key);
    let mut expected = Lcg::new(secret);
    for _ in 0..16 {
        assert_eq!(generator.next_byte(), expected.next_byte());
    }
}

#[test]
fn establish_session_rejects_short_read() {
    let r = establish_session(1, &vec![0xAB; 7]);
    assert!(matches!(r, Err(TransportError::ShortRead)));
}
