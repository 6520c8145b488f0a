use mini_signal::bundle::{KeyBundle, PrekeyBundle};
use mini_signal::errors::Error;
use mini_signal::manager::{Fresh, SessionManager};
use mini_signal::primitives::KeyPair;
use mini_signal::session::Session;
use mini_signal::wire::WireMessage;
use mini_signal::x3dh::{initiate_with, respond_to};

fn bob_bundle() -> KeyBundle {
    KeyBundle::from_secrets([2u8; 32], [3u8; 32], [4u8; 32], &vec![[5u8; 32]])
}

fn published(bundle: &KeyBundle, with_opk: bool) -> PrekeyBundle {
    PrekeyBundle {
        ik: bundle.identity.public,
        spk: bundle.spk.public,
        spk_signature: bundle.spk_signature,
        verifying_key: bundle.verifying_key,
        opk: if with_opk { Some(bundle.opks[0].public) } else { None },
    }
}

/// Alice and Bob after the handshake: Alice's sending session, Bob's
/// receiving session.
fn pair(max_skip: u32) -> (Session, Session) {
    let alice = KeyPair::from_secret([1u8; 32]);
    let bob = bob_bundle();
    let keys = published(&bob, true);
    let h = initiate_with(&alice, [6u8; 32], &keys).unwrap();
    let a = Session::init_as_sender_with(&h.sk, &h.ad, &keys.spk, [7u8; 32], max_skip).unwrap();
    let (sk, ad, index) = respond_to(&bob, &h.preamble).unwrap();
    assert_eq!(sk, h.sk);
    assert_eq!(ad, h.ad);
    assert_eq!(index, Some(0));
    let b = Session::init_as_receiver_with(&sk, &ad, bob.spk, max_skip);
    (a, b)
}

fn send(s: &mut Session, text: &[u8], tag: u8) -> WireMessage {
    s.encrypt_with_nonce(text, b"", [tag; 12]).unwrap()
}

fn snapshot(s: &Session) -> String {
    format!("{:?}", s)
}

#[test]
fn handshake_and_one_message() {
    let (mut a, mut b) = pair(1000);
    let alice_ratchet_public = a.dh_s.public;
    let w = send(&mut a, b"hello", 1);
    let pt = b.decrypt_with_key(&w, b"", [9u8; 32]).unwrap();
    assert_eq!(pt, b"hello".to_vec());
    assert_eq!(b.n_r, 1);
    assert_eq!(b.dh_r, Some(alice_ratchet_public));
    assert!(b.skipped.is_empty());
}

#[test]
fn handshake_without_one_time_prekey() {
    let alice = KeyPair::from_secret([1u8; 32]);
    let bob = bob_bundle();
    let keys = published(&bob, false);
    let h = initiate_with(&alice, [6u8; 32], &keys).unwrap();
    assert_eq!(h.preamble.opk_used, None);
    let (sk, ad, index) = respond_to(&bob, &h.preamble).unwrap();
    assert_eq!(index, None);
    assert_eq!(sk, h.sk);
    assert_eq!(ad, h.ad);
    assert_eq!(
        h.sk,
        [185, 150, 203, 140, 36, 177, 136, 128, 182, 131, 82, 195, 92, 255, 18, 201, 210, 214, 32, 248, 136, 17, 70, 249, 219, 168, 170, 61, 150, 151, 153, 194]
    );
}

#[test]
fn out_of_order_delivery() {
    let (mut a, mut b) = pair(1000);
    let m0 = send(&mut a, b"zero", 10);
    let m1 = send(&mut a, b"one", 11);
    let m2 = send(&mut a, b"two", 12);
    let m3 = send(&mut a, b"three", 13);

    assert_eq!(b.decrypt_with_key(&m0, b"", [9u8; 32]).unwrap(), b"zero".to_vec());
    assert!(b.skipped.is_empty());

    assert_eq!(b.decrypt_with_key(&m2, b"", [19u8; 32]).unwrap(), b"two".to_vec());
    assert_eq!(b.skipped.len(), 1);
    assert_eq!(b.skipped[0].n, 1);
    assert_eq!(Some(b.skipped[0].hk), b.hk_r);
    assert_eq!(b.n_r, 3);

    assert_eq!(b.decrypt_with_key(&m1, b"", [29u8; 32]).unwrap(), b"one".to_vec());
    assert!(b.skipped.is_empty());
    assert_eq!(b.n_r, 3);

    assert_eq!(b.decrypt_with_key(&m3, b"", [39u8; 32]).unwrap(), b"three".to_vec());
    assert_eq!(b.n_r, 4);
}

#[test]
fn bidirectional_ratchet() {
    let (mut a, mut b) = pair(1000);
    let rk0 = a.rk;
    let w = send(&mut a, b"hello", 1);
    assert_eq!(b.decrypt_with_key(&w, b"", [9u8; 32]).unwrap(), b"hello".to_vec());
    let bob_rk1 = b.rk;

    let reply = send(&mut b, b"hi", 2);
    let old_dh_r = a.dh_r;
    assert_eq!(a.decrypt_with_key(&reply, b"", [10u8; 32]).unwrap(), b"hi".to_vec());
    let rk1 = a.rk;
    assert_ne!(rk0, rk1);
    assert_ne!(a.dh_r, old_dh_r);
    assert_eq!(a.dh_r, Some(b.dh_s.public));
    assert_eq!(a.pn, 1);
    assert_eq!(a.n_s, 0);

    let again = send(&mut a, b"again", 3);
    assert_eq!(b.decrypt_with_key(&again, b"", [11u8; 32]).unwrap(), b"again".to_vec());
    let bob_rk2 = b.rk;
    assert_ne!(bob_rk1, bob_rk2);
    assert_ne!(rk0, bob_rk2);
    assert_ne!(rk1, bob_rk2);
    assert_eq!(b.dh_r, Some(a.dh_s.public));
}

#[test]
fn skip_overflow() {
    let (mut a, mut b) = pair(4);
    let mut last = None;
    for i in 0..11u8 {
        last = Some(send(&mut a, &[i], i));
    }
    let m10 = last.unwrap();
    let before = snapshot(&b);
    assert_eq!(b.decrypt_with_key(&m10, b"", [9u8; 32]), Err(Error::TooManySkipped));
    assert_eq!(snapshot(&b), before);
}

#[test]
fn skip_within_the_limit() {
    let (mut a, mut b) = pair(4);
    let mut sent = Vec::new();
    for i in 0..5u8 {
        sent.push(send(&mut a, &[i], i));
    }
    assert_eq!(b.decrypt_with_key(&sent[4], b"", [9u8; 32]).unwrap(), vec![4u8]);
    assert_eq!(b.skipped.len(), 4);
    let numbers: Vec<u32> = b.skipped.iter().map(|k| k.n).collect();
    assert_eq!(numbers, vec![0, 1, 2, 3]);
    for i in [3usize, 0, 2, 1] {
        assert_eq!(b.decrypt_with_key(&sent[i], b"", [9u8; 32]).unwrap(), vec![i as u8]);
    }
    assert!(b.skipped.is_empty());
}

#[test]
fn oldest_keys_are_evicted_first() {
    let (mut a, mut b) = pair(3);
    let mut sent = Vec::new();
    for i in 0..8u8 {
        sent.push(send(&mut a, &[i], i));
    }
    assert_eq!(b.decrypt_with_key(&sent[0], b"", [9u8; 32]).unwrap(), vec![0u8]);
    // passes over 1, 2, 3
    assert_eq!(b.decrypt_with_key(&sent[4], b"", [9u8; 32]).unwrap(), vec![4u8]);
    assert_eq!(b.skipped.iter().map(|k| k.n).collect::<Vec<u32>>(), vec![1, 2, 3]);
    // passes over 5, 6: the keys of 1 and 2 make room
    assert_eq!(b.decrypt_with_key(&sent[7], b"", [9u8; 32]).unwrap(), vec![7u8]);
    assert_eq!(b.skipped.iter().map(|k| k.n).collect::<Vec<u32>>(), vec![3, 5, 6]);
    let before = snapshot(&b);
    assert_eq!(b.decrypt_with_key(&sent[1], b"", [9u8; 32]), Err(Error::MessageKeyExpired));
    assert_eq!(snapshot(&b), before);
    assert_eq!(b.decrypt_with_key(&sent[3], b"", [9u8; 32]).unwrap(), vec![3u8]);
}

#[test]
fn tampered_ciphertext() {
    let (mut a, mut b) = pair(1000);
    let w = send(&mut a, b"hello", 1);
    let mut bad = WireMessage {
        preamble: w.preamble,
        header_ct: w.header_ct.clone(),
        header_nonce: w.header_nonce,
        body: w.body.clone(),
        body_nonce: w.body_nonce,
    };
    bad.body[0] ^= 1;
    let before = snapshot(&b);
    let before_bytes = b.to_bytes().unwrap();
    assert_eq!(b.decrypt_with_key(&bad, b"", [9u8; 32]), Err(Error::AuthenticationFailed));
    assert_eq!(snapshot(&b), before);
    assert_eq!(b.to_bytes().unwrap(), before_bytes);
    assert_eq!(b.decrypt_with_key(&w, b"", [9u8; 32]).unwrap(), b"hello".to_vec());
    assert_ne!(b.to_bytes().unwrap(), before_bytes);
}

#[test]
fn tampered_header_and_nonce() {
    let (mut a, mut b) = pair(1000);
    let w = send(&mut a, b"hello", 1);
    let mut bad_header = WireMessage {
        preamble: None,
        header_ct: w.header_ct.clone(),
        header_nonce: w.header_nonce,
        body: w.body.clone(),
        body_nonce: w.body_nonce,
    };
    bad_header.header_ct[3] ^= 0x80;
    let before = snapshot(&b);
    assert_eq!(b.decrypt_with_key(&bad_header, b"", [9u8; 32]), Err(Error::HeaderDecryptFailed));
    assert_eq!(snapshot(&b), before);

    let mut bad_nonce = WireMessage {
        preamble: None,
        header_ct: w.header_ct.clone(),
        header_nonce: w.header_nonce,
        body: w.body.clone(),
        body_nonce: w.body_nonce,
    };
    bad_nonce.body_nonce[0] ^= 1;
    assert_eq!(b.decrypt_with_key(&bad_nonce, b"", [9u8; 32]), Err(Error::AuthenticationFailed));
    assert_eq!(snapshot(&b), before);

    // other associated data than the sender used
    assert_eq!(b.decrypt_with_key(&w, b"x", [9u8; 32]), Err(Error::AuthenticationFailed));
    assert_eq!(snapshot(&b), before);
}

#[test]
fn missing_one_time_prekey() {
    let alice = KeyBundle::from_secrets([1u8; 32], [21u8; 32], [22u8; 32], &vec![]);
    let bob = bob_bundle();
    let mut keys = published(&bob, true);
    // a one-time prekey that Bob never had
    keys.opk = Some(KeyPair::from_secret([77u8; 32]).public);
    let mut alice = SessionManager::new(alice, 1000);
    let mut bob = SessionManager::new(bob, 1000);
    let fresh = Fresh { ephemeral: [6u8; 32], ratchet: [7u8; 32], nonce: [8u8; 12] };
    let w = alice.send_to_with(&"bob".to_string(), b"hello", Some(keys), &fresh).unwrap();
    assert_eq!(
        bob.receive_from_with(&"alice".to_string(), &w, [9u8; 32]),
        Err(Error::UnknownOneTimeKey)
    );
    assert!(bob.peers.is_empty());
    assert!(!bob.has_session(&"alice".to_string()));
    assert_eq!(bob.keys.opks.len(), 1);
}

#[test]
fn invalid_signature_aborts_the_handshake() {
    let alice = KeyPair::from_secret([1u8; 32]);
    let bob = bob_bundle();
    let mut keys = published(&bob, true);
    keys.spk_signature[10] ^= 1;
    assert_eq!(initiate_with(&alice, [6u8; 32], &keys).err(), Some(Error::SignatureInvalid));
    assert_eq!(keys.verify(), Err(Error::SignatureInvalid));
    let good = published(&bob, true);
    assert_eq!(good.verify(), Ok(()));
}

#[test]
fn consecutive_sends_count_up() {
    let (mut a, _b) = pair(1000);
    assert_eq!((a.n_s, a.pn), (0, 0));
    send(&mut a, b"x", 1);
    assert_eq!((a.n_s, a.pn), (1, 0));
    send(&mut a, b"y", 2);
    assert_eq!((a.n_s, a.pn), (2, 0));
}

#[test]
fn long_in_order_stream() {
    let (mut a, mut b) = pair(1000);
    for i in 0..300u32 {
        let text = i.to_be_bytes();
        let w = a.encrypt(&text, b"ad").unwrap();
        assert_eq!(b.decrypt(&w, b"ad").unwrap(), text.to_vec());
        assert!(b.skipped.is_empty());
        if i % 50 == 49 {
            let back = b.encrypt(b"ack", b"").unwrap();
            assert_eq!(a.decrypt(&back, b"").unwrap(), b"ack".to_vec());
        }
    }
}

#[test]
fn ten_thousand_messages_in_order() {
    let (mut a, mut b) = pair(1000);
    for i in 0..10_000u32 {
        let text = i.to_be_bytes();
        let w = a.encrypt_with_nonce(&text, b"", [7u8; 12]).unwrap();
        assert_eq!(b.decrypt_with_key(&w, b"", [9u8; 32]).unwrap(), text.to_vec());
    }
    assert_eq!(a.n_s, 10_000);
    assert_eq!(b.n_r, 10_000);
    assert!(b.skipped.is_empty());
}

#[test]
fn dropped_messages_do_not_block_later_ones() {
    let (mut a, mut b) = pair(1000);
    let mut sent = Vec::new();
    for i in 0..20u8 {
        sent.push(send(&mut a, &[i], i));
    }
    for i in [2usize, 3, 7, 11, 19] {
        assert_eq!(b.decrypt_with_key(&sent[i], b"", [9u8; 32]).unwrap(), vec![i as u8]);
    }
    assert_eq!(b.n_r, 20);
    assert_eq!(b.skipped.len(), 15);
}

#[test]
fn receiver_cannot_send_before_first_message() {
    let (_a, mut b) = pair(1000);
    let before = snapshot(&b);
    assert_eq!(b.encrypt_with_nonce(b"early", b"", [1u8; 12]).err(), Some(Error::SessionCorrupt));
    assert_eq!(b.encrypt(b"early", b"").err(), Some(Error::SessionCorrupt));
    assert_eq!(snapshot(&b), before);
}

#[test]
fn managers_talk_both_ways() {
    let alice_keys = KeyBundle::generate(2).unwrap();
    let mut bob_keys = KeyBundle::generate(3).unwrap();
    let offer = bob_keys.publish().unwrap();
    assert_eq!(bob_keys.publish().err(), Some(Error::AlreadyPublished));
    let alice_ik = alice_keys.identity.public;
    let mut alice = SessionManager::new(alice_keys, 1000);
    let mut bob = SessionManager::new(bob_keys, 1000);
    let bob_name = "bob".to_string();
    let alice_name = "alice".to_string();

    assert!(!alice.has_session(&bob_name));
    assert_eq!(alice.send_to(&bob_name, b"hello", None).err(), Some(Error::UnknownPeer));

    let keys = PrekeyBundle {
        ik: offer.ik,
        spk: offer.spk,
        spk_signature: offer.spk_signature,
        verifying_key: offer.verifying_key,
        opk: Some(offer.opks[1]),
    };
    let first = alice.send_to(&bob_name, b"hello", Some(keys)).unwrap();
    assert!(alice.has_session(&bob_name));
    let preamble = first.preamble.unwrap();
    assert_eq!(preamble.ik_sender, alice_ik);
    assert_eq!(preamble.opk_used, Some(offer.opks[1]));

    let second = alice.send_to(&bob_name, b"again", None).unwrap();
    assert!(second.preamble.is_none());

    // without a session, a message without a preamble cannot be read
    assert_eq!(bob.receive_from(&alice_name, &second), Err(Error::UnknownPeer));
    assert_eq!(bob.receive_from(&alice_name, &first).unwrap(), b"hello".to_vec());
    assert_eq!(bob.keys.opks.len(), 2);
    assert_eq!(bob.keys.opks[0].public, offer.opks[0]);
    assert_eq!(bob.keys.opks[1].public, offer.opks[2]);
    assert_eq!(bob.receive_from(&alice_name, &second).unwrap(), b"again".to_vec());

    let reply = bob.send_to(&alice_name, b"hi", None).unwrap();
    assert_eq!(alice.receive_from(&bob_name, &reply).unwrap(), b"hi".to_vec());

    assert!(bob.forget(&alice_name));
    assert!(!bob.forget(&alice_name));
    assert!(!bob.has_session(&alice_name));
}

#[test]
fn preamble_with_another_identity_is_refused() {
    let alice_keys = KeyBundle::from_secrets([1u8; 32], [21u8; 32], [22u8; 32], &vec![]);
    let bob_keys = bob_bundle();
    let keys = published(&bob_keys, true);
    let mut alice = SessionManager::new(alice_keys, 1000);
    let mut bob = SessionManager::new(bob_keys, 1000);
    let fresh = Fresh { ephemeral: [6u8; 32], ratchet: [7u8; 32], nonce: [8u8; 12] };
    let bob_name = "bob".to_string();
    let alice_name = "alice".to_string();
    let first = alice.send_to_with(&bob_name, b"hello", Some(keys), &fresh).unwrap();
    assert_eq!(bob.receive_from_with(&alice_name, &first, [9u8; 32]).unwrap(), b"hello".to_vec());

    let mut next = alice.send_to_with(&bob_name, b"more", None, &fresh).unwrap();
    let mut forged = first.preamble.unwrap();
    forged.ik_sender[0] ^= 1;
    next.preamble = Some(forged);
    let before = format!("{:?}", bob);
    assert_eq!(
        bob.receive_from_with(&alice_name, &next, [9u8; 32]),
        Err(Error::PeerIdentityMismatch)
    );
    assert_eq!(format!("{:?}", bob), before);

    // the same preamble as before is ignored
    next.preamble = first.preamble;
    assert_eq!(bob.receive_from_with(&alice_name, &next, [9u8; 32]).unwrap(), b"more".to_vec());
}
