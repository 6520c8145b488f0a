use mini_signal::bundle::{KeyBundle, PrekeyBundle};
use mini_signal::client::{
    initialize_database, load_messages, store_message_in_database, LocalStores, MessageHistory, Vault,
};
use mini_signal::errors::Error;
use mini_signal::primitives::KeyPair;
use mini_signal::session::Session;
use mini_signal::skipped::SkippedKey;
use mini_signal::x3dh::initiate_with;

fn sessions() -> (Session, Session) {
    let alice = KeyPair::from_secret([1u8; 32]);
    let bob = KeyBundle::from_secrets([2u8; 32], [3u8; 32], [4u8; 32], &vec![]);
    let keys = PrekeyBundle {
        ik: bob.identity.public,
        spk: bob.spk.public,
        spk_signature: bob.spk_signature,
        verifying_key: bob.verifying_key,
        opk: None,
    };
    let h = initiate_with(&alice, [6u8; 32], &keys).unwrap();
    let a = Session::init_as_sender_with(&h.sk, &h.ad, &keys.spk, [7u8; 32], 50).unwrap();
    let b = Session::init_as_receiver_with(&h.sk, &h.ad, bob.spk, 50);
    (a, b)
}

#[test]
fn session_round_trips_byte_for_byte() {
    let (mut a, mut b) = sessions();
    let mut sent = Vec::new();
    for i in 0..6u8 {
        sent.push(a.encrypt_with_nonce(&[i], b"", [i; 12]).unwrap());
    }
    b.decrypt_with_key(&sent[5], b"", [9u8; 32]).unwrap();
    assert_eq!(b.skipped.len(), 5);

    for s in [&a, &b] {
        let bytes = s.to_bytes().unwrap();
        let back = Session::from_bytes(&bytes).unwrap();
        assert_eq!(format!("{:?}", back), format!("{:?}", s));
        assert_eq!(back.to_bytes().unwrap(), bytes);
    }
    let bytes = b.to_bytes().unwrap();
    assert_eq!(bytes.len(), 350 + 64 + 5 * 68);
    assert_eq!(bytes[0], 1);

    // the restored session goes on where the stored one stopped
    let mut restored = Session::from_bytes(&bytes).unwrap();
    assert_eq!(restored.decrypt_with_key(&sent[2], b"", [9u8; 32]).unwrap(), vec![2u8]);
    assert_eq!(restored.skipped.len(), 4);
}

#[test]
fn stored_session_layout() {
    let s = Session {
        ad: vec![0xad, 0xae],
        dh_s: KeyPair { secret: [1u8; 32], public: [2u8; 32] },
        dh_r: None,
        rk: [3u8; 32],
        ck_s: Some([4u8; 32]),
        ck_r: None,
        hk_s: None,
        hk_r: Some([5u8; 32]),
        nhk_s: [6u8; 32],
        nhk_r: [7u8; 32],
        n_s: 0x01020304,
        n_r: 2,
        pn: 3,
        skipped: vec![SkippedKey { hk: [8u8; 32], n: 0x0a0b0c0d, mk: [9u8; 32] }],
        max_skip: 1000,
    };
    let bytes = s.to_bytes().unwrap();
    assert_eq!(bytes.len(), 350 + 2 + 68);
    assert_eq!(&bytes[1..33], &[1u8; 32]);
    assert_eq!(&bytes[33..65], &[2u8; 32]);
    assert_eq!(bytes[65], 0);
    assert_eq!(&bytes[66..98], &[0u8; 32]);
    assert_eq!(&bytes[98..130], &[3u8; 32]);
    assert_eq!(bytes[130], 1);
    assert_eq!(&bytes[131..163], &[4u8; 32]);
    assert_eq!(bytes[163], 0);
    assert_eq!(bytes[196], 0);
    assert_eq!(bytes[229], 1);
    assert_eq!(&bytes[230..262], &[5u8; 32]);
    assert_eq!(&bytes[326..330], &[1, 2, 3, 4]);
    assert_eq!(&bytes[330..342], &[0, 0, 0, 2, 0, 0, 0, 3, 0, 0, 0x03, 0xe8]);
    assert_eq!(&bytes[342..348], &[0, 0, 0, 2, 0xad, 0xae]);
    assert_eq!(&bytes[348..352], &[0, 0, 0, 1]);
    assert_eq!(&bytes[352..384], &[8u8; 32]);
    assert_eq!(&bytes[384..388], &[0x0a, 0x0b, 0x0c, 0x0d]);
    assert_eq!(&bytes[388..], &[9u8; 32]);
    let back = Session::from_bytes(&bytes).unwrap();
    assert_eq!(format!("{:?}", back), format!("{:?}", s));
}

#[test]
fn malformed_stored_sessions_are_refused() {
    let (a, _) = sessions();
    let good = a.to_bytes().unwrap();
    assert!(Session::from_bytes(&[]).is_none());
    for cut in 0..good.len() {
        assert!(Session::from_bytes(&good[..cut]).is_none(), "length {}", cut);
    }
    let mut bad = good.clone();
    bad.push(0);
    assert!(Session::from_bytes(&bad).is_none());
    let mut bad = good.clone();
    bad[0] = 9;
    assert!(Session::from_bytes(&bad).is_none());
    // a flag that is neither 0 nor 1
    let mut bad = good.clone();
    bad[130] = 2;
    assert!(Session::from_bytes(&bad).is_none());
    // an absent key that is not all zero
    let mut bad = good.clone();
    assert_eq!(bad[163], 0);
    bad[170] = 1;
    assert!(Session::from_bytes(&bad).is_none());
    // a count that promises more keys than follow
    let mut bad = good.clone();
    let at = bad.len() - 1;
    bad[at] = 1;
    assert!(Session::from_bytes(&bad).is_none());
}

#[test]
fn key_bundle_round_trips() {
    let mut bundle = KeyBundle::from_secrets([2u8; 32], [3u8; 32], [4u8; 32], &vec![[5u8; 32], [6u8; 32]]);
    let bytes = bundle.to_bytes().unwrap();
    assert_eq!(bytes.len(), 262 + 2 * 64);
    assert_eq!(bytes[257], 0);
    let back = KeyBundle::from_bytes(&bytes).unwrap();
    assert_eq!(format!("{:?}", back), format!("{:?}", bundle));
    bundle.publish().unwrap();
    let bytes = bundle.to_bytes().unwrap();
    assert_eq!(bytes[257], 1);
    let back = KeyBundle::from_bytes(&bytes).unwrap();
    assert!(back.published);
    assert_eq!(back.to_bytes().unwrap(), bytes);

    assert!(KeyBundle::from_bytes(&bytes[..bytes.len() - 1]).is_none());
    let mut bad = bytes.clone();
    bad[257] = 2;
    assert!(KeyBundle::from_bytes(&bad).is_none());
    let mut bad = bytes.clone();
    bad[0] = 0;
    assert!(KeyBundle::from_bytes(&bad).is_none());
}

#[test]
fn key_bundle_pool() {
    let mut bundle = KeyBundle::from_secrets([2u8; 32], [3u8; 32], [4u8; 32], &vec![[5u8; 32], [6u8; 32], [7u8; 32]]);
    let second = bundle.opks[1];
    let taken = bundle.take(&second.public).unwrap();
    assert_eq!(taken.secret, [6u8; 32]);
    assert_eq!(bundle.opks.len(), 2);
    assert_eq!(bundle.opks[0].secret, [5u8; 32]);
    assert_eq!(bundle.opks[1].secret, [7u8; 32]);
    assert_eq!(bundle.take(&second.public).err(), Some(Error::NotFound));
    assert_eq!(bundle.opks.len(), 2);
    assert_eq!(bundle.find_opk(&KeyPair::from_secret([7u8; 32]).public), Some(1));
    assert_eq!(bundle.find_opk(&[0u8; 32]), None);

    let added = bundle.supply_opks_with(&vec![[8u8; 32]]);
    assert_eq!(added, vec![KeyPair::from_secret([8u8; 32]).public]);
    assert_eq!(bundle.opks.len(), 3);
    assert_eq!(bundle.opks[2].secret, [8u8; 32]);

    let old_signature = bundle.spk_signature;
    bundle.rotate_spk_with([9u8; 32]);
    assert_eq!(bundle.spk.public, KeyPair::from_secret([9u8; 32]).public);
    assert_ne!(bundle.spk_signature, old_signature);
    let keys = PrekeyBundle {
        ik: bundle.identity.public,
        spk: bundle.spk.public,
        spk_signature: bundle.spk_signature,
        verifying_key: bundle.verifying_key,
        opk: None,
    };
    assert_eq!(keys.verify(), Ok(()));
}

#[test]
fn key_bundle_from_parts_checks_the_signature() {
    let b = KeyBundle::from_secrets([2u8; 32], [3u8; 32], [4u8; 32], &vec![]);
    let ok = KeyBundle::from_parts(b.identity, b.signing_key, b.verifying_key, b.spk, b.spk_signature, vec![], true);
    assert!(ok.unwrap().published);
    let mut signature = b.spk_signature;
    signature[0] ^= 1;
    let bad = KeyBundle::from_parts(b.identity, b.signing_key, b.verifying_key, b.spk, signature, vec![], false);
    assert_eq!(bad.err(), Some(Error::SignatureInvalid));
    // a verifying key that is no point on the curve verifies nothing
    let bad = KeyBundle::from_parts(b.identity, b.signing_key, [2u8; 32], b.spk, b.spk_signature, vec![], false);
    assert_eq!(bad.err(), Some(Error::SignatureInvalid));
}

#[test]
fn message_history() {
    let mut stores = LocalStores::new();
    assert_eq!(
        store_message_in_database(&mut stores, "alice", "bob", "hello"),
        Err("Database not initialized".to_string())
    );
    assert_eq!(load_messages(&stores, "bob"), Err("Database not initialized".to_string()));
    initialize_database(&mut stores, "alice");
    assert!(stores.messages.is_some());
    assert!(stores.vault.is_some());
    assert_eq!(stores.messages.as_ref().unwrap().owner, "alice");
    assert_eq!(store_message_in_database(&mut stores, "alice", "bob", "hello"), Ok(()));
    assert_eq!(store_message_in_database(&mut stores, "carol", "alice", "hi alice"), Ok(()));
    assert_eq!(store_message_in_database(&mut stores, "bob", "alice", "hi"), Ok(()));
    // opening again keeps what is there
    initialize_database(&mut stores, "someone else");
    assert_eq!(stores.messages.as_ref().unwrap().owner, "alice");
    let with_bob = load_messages(&stores, "bob").unwrap();
    assert_eq!(
        with_bob,
        vec![
            ("alice".to_string(), "bob".to_string(), "hello".to_string()),
            ("bob".to_string(), "alice".to_string(), "hi".to_string()),
        ]
    );
    assert_eq!(load_messages(&stores, "alice").unwrap().len(), 3);
    assert!(load_messages(&stores, "dave").unwrap().is_empty());

    let mut h = MessageHistory::new("x");
    h.insert_message("a", "b", "c");
    assert_eq!(h.get_messages_with("b"), vec![("a".to_string(), "b".to_string(), "c".to_string())]);
}

#[test]
fn vault_files_one_session_per_peer() {
    let mut v = Vault::new("alice");
    assert_eq!(v.load_session("bob"), None);
    assert_eq!(v.load_key_bundle(), None);
    v.save_session("bob", &[1, 2, 3]);
    v.save_session("carol", &[4]);
    assert_eq!(v.load_session("bob"), Some(vec![1, 2, 3]));
    v.save_session("bob", &[9, 9]);
    assert_eq!(v.load_session("bob"), Some(vec![9, 9]));
    assert_eq!(v.load_session("carol"), Some(vec![4]));
    assert_eq!(v.sessions.len(), 2);
    assert!(v.delete_session("bob"));
    assert!(!v.delete_session("bob"));
    assert_eq!(v.load_session("bob"), None);
    assert_eq!(v.load_session("carol"), Some(vec![4]));
    v.save_key_bundle(&[7, 7]);
    assert_eq!(v.load_key_bundle(), Some(vec![7, 7]));
    v.save_key_bundle(&[8]);
    assert_eq!(v.load_key_bundle(), Some(vec![8]));
}
