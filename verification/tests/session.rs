use dhchat::session::{inbound_step, outbound_step, InboundAction};
use dhchat::Lcg;

#[test]
fn peers_exchange_a_message() {
    // Both peers hold the same shared secret; the sender encrypts, the
    // receiver decrypts the same bytes.
    let secret: u64 = 0xB9167F5A82DDB60B;
    let mut sender = Lcg::new(secret);
    let mut receiver = Lcg::new(secret);

    let line = b"hello there".to_vec();
    let encrypted = outbound_step(&mut sender, &line).unwrap();
    assert_ne!(encrypted, line);

    match inbound_step(&mut receiver, &encrypted) {
        InboundAction::Deliver(plain) => assert_eq!(plain, line),
        InboundAction::Disconnect => panic!("a non-empty chunk must be delivered"),
    }
}

#[test]
fn empty_read_means_disconnect() {
    let mut generator = Lcg::new(9);
    let action = inbound_step(&mut generator, &Vec::new());
    assert!(matches!(action, InboundAction::Disconnect));
    // The generator was not advanced by the disconnect.
    let mut untouched = Lcg::new(9);
    assert_eq!(generator.next_byte(), untouched.next_byte());
}

#[test]
fn disconnect_leaves_outbound_path_usable() {
    // A zero-byte read on the inbound path only signals the end of the
    // session; the outbound path can still encrypt with an aligned keystream.
    let secret: u64 = 77;
    let mut local = Lcg::new(secret);
    let mut peer = Lcg::new(secret);

    let action = inbound_step(&mut local, &Vec::new());
    assert!(matches!(action, InboundAction::Disconnect));

    let line = b"closing".to_vec();
    let encrypted = outbound_step(&mut local, &line).unwrap();
    match inbound_step(&mut peer, &encrypted) {
        InboundAction::Deliver(plain) => assert_eq!(plain, line),
        InboundAction::Disconnect => panic!("a non-empty chunk must be delivered"),
    }
}

#[test]
fn empty_line_is_skipped() {
    let mut generator = Lcg::new(5);
    assert!(outbound_step(&mut generator, &Vec::new()).is_none());
    let mut untouched = Lcg::new(5);
    assert_eq!(generator.next_byte(), untouched.next_byte());
}

#[test]
fn keystream_position_spans_chunks() {
    // Chunk boundaries do not realign the keystream: two chunks decrypt the
    // same as one, as long as both sides consume the same positions.
    let secret: u64 = 31337;
    let mut sender = Lcg::new(secret);
    let mut receiver = Lcg::new(secret);

    let first = b"abc".to_vec();
    let second = b"defgh".to_vec();
    let c1 = outbound_step(&mut sender, &first).unwrap();
    let c2 = outbound_step(&mut sender, &second).unwrap();

    // The receiver happens to read everything in one chunk.
    let mut joined = c1.clone();
    joined.extend_from_slice(&c2);
    match inbound_step(&mut receiver, &joined) {
        InboundAction::Deliver(plain) => assert_eq!(plain, b"abcdefgh".to_vec()),
        InboundAction::Disconnect => panic!("a non-empty chunk must be delivered"),
    }
}
