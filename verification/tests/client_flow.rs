use mini_signal::bundle::{KeyBundle, PrekeyBundle};
use mini_signal::client::Vault;
use mini_signal::credentials::{get_hash, storage_key};
use mini_signal::persist::{protect, protect_with, unprotect};
use mini_signal::errors::Error;
use mini_signal::manager::{Fresh, PeerSession, SessionManager};
use mini_signal::primitives::KeyPair;
use mini_signal::protocol::{stored_from_wire, user_list, ServerResponse};
use mini_signal::x3dh::initiate_with;

fn offer(bundle: &KeyBundle, opk: Option<usize>) -> PrekeyBundle {
    PrekeyBundle {
        ik: bundle.identity.public,
        spk: bundle.spk.public,
        spk_signature: bundle.spk_signature,
        verifying_key: bundle.verifying_key,
        opk: opk.map(|i| bundle.opks[i].public),
    }
}

fn talking_pair() -> (SessionManager, SessionManager) {
    let alice = KeyBundle::from_secrets([1u8; 32], [21u8; 32], [22u8; 32], &vec![[23u8; 32]]);
    let bob = KeyBundle::from_secrets([2u8; 32], [3u8; 32], [4u8; 32], &vec![[5u8; 32], [6u8; 32]]);
    let keys = offer(&bob, Some(0));
    let mut alice = SessionManager::new(alice, 100);
    let mut bob = SessionManager::new(bob, 100);
    let fresh = Fresh { ephemeral: [6u8; 32], ratchet: [7u8; 32], nonce: [8u8; 12] };
    let w = alice.send_to_with(&"bob".to_string(), b"hello", Some(keys), &fresh).unwrap();
    assert_eq!(bob.receive_from_with(&"alice".to_string(), &w, [9u8; 32]).unwrap(), b"hello".to_vec());
    (alice, bob)
}

#[test]
fn password_hash() {
    let hash = get_hash(&"hunter42".to_string()).unwrap();
    assert!(hash.starts_with("$argon2id$v=19$m=19456,t=2,p=1$vRpg/cByxpn6m1L0ZPF5ew$"), "{}", hash);
    assert_eq!(get_hash(&"hunter42".to_string()), Some(hash.clone()));
    let other = get_hash(&"hunter43".to_string()).unwrap();
    assert_ne!(hash, other);
    assert_ne!(hash, "hunter42");
    assert!(get_hash(&String::new()).is_some());
}

#[test]
fn all_zero_shared_secret_is_refused() {
    let alice = KeyPair::from_secret([1u8; 32]);
    let bob = KeyBundle::from_secrets([2u8; 32], [3u8; 32], [4u8; 32], &vec![]);
    let mut keys = offer(&bob, None);
    // the identity key is a point of small order
    keys.ik = [0u8; 32];
    assert_eq!(initiate_with(&alice, [6u8; 32], &keys).err(), Some(Error::WeakSharedSecret));
}

#[test]
fn fresh_secrets_differ() {
    let a = KeyPair::generate().unwrap();
    let b = KeyPair::generate().unwrap();
    assert_ne!(a.secret, b.secret);
    assert_ne!(a.secret, [0u8; 32]);
    assert_eq!(a.public, KeyPair::from_secret(a.secret).public);
    let x = Fresh::draw().unwrap();
    let y = Fresh::draw().unwrap();
    assert_ne!(x.nonce, y.nonce);
    assert_ne!(x.ephemeral, x.ratchet);
    let mut bundle = KeyBundle::generate(3).unwrap();
    assert_eq!(bundle.opks.len(), 3);
    assert_eq!(offer(&bundle, Some(2)).verify(), Ok(()));
    let added = bundle.supply_opks(2).unwrap();
    assert_eq!(bundle.opks.len(), 5);
    assert_eq!(added, vec![bundle.opks[3].public, bundle.opks[4].public]);
    let old = bundle.spk;
    bundle.rotate_spk().unwrap();
    assert_ne!(bundle.spk.secret, old.secret);
    assert_eq!(offer(&bundle, None).verify(), Ok(()));
}

#[test]
fn stored_messages_are_received_from_their_sender() {
    let alice_keys = KeyBundle::from_secrets([1u8; 32], [21u8; 32], [22u8; 32], &vec![]);
    let bob_keys = KeyBundle::from_secrets([2u8; 32], [3u8; 32], [4u8; 32], &vec![[5u8; 32]]);
    let keys = offer(&bob_keys, Some(0));
    let mut alice = SessionManager::new(alice_keys, 100);
    let mut bob = SessionManager::new(bob_keys, 100);
    let fresh = Fresh { ephemeral: [6u8; 32], ratchet: [7u8; 32], nonce: [8u8; 12] };
    let w = alice.send_to_with(&"bob".to_string(), b"hello", Some(keys), &fresh).unwrap();
    let stored = stored_from_wire(&"alice".to_string(), &w);

    let mut broken = stored.clone();
    broken.nonce.pop();
    assert_eq!(bob.receive_stored_with(&broken, [9u8; 32]), Err(Error::HeaderDecryptFailed));
    assert!(bob.peers.is_empty());

    assert_eq!(bob.receive_stored_with(&stored, [9u8; 32]).unwrap(), b"hello".to_vec());
    assert!(bob.has_session(&"alice".to_string()));
    assert!(bob.keys.opks.is_empty());

    let next = alice.send_to(&"bob".to_string(), b"more", None).unwrap();
    assert_eq!(bob.receive_stored(&stored_from_wire(&"alice".to_string(), &next)).unwrap(), b"more".to_vec());
}

#[test]
fn client_is_saved_and_loaded() {
    let (mut alice, mut bob) = talking_pair();
    assert!(alice.is_wf() && bob.is_wf());
    let mut vault = Vault::new("bob");
    assert!(vault.is_wf());
    assert!(SessionManager::load_client(&vault, 100).is_none());
    assert!(bob.save_client(&mut vault));
    assert_eq!(vault.sessions.len(), 1);
    assert_eq!(vault.sessions[0].peer, "alice");
    assert_eq!(vault.load_key_bundle(), bob.keys.to_bytes());
    assert_eq!(vault.load_session("alice"), bob.peers[0].to_bytes());

    let mut restored = SessionManager::load_client(&vault, 100).unwrap();
    assert_eq!(format!("{:?}", restored), format!("{:?}", bob));

    // the restored manager goes on with the conversation
    let w = alice.send_to(&"bob".to_string(), b"after", None).unwrap();
    assert_eq!(restored.receive_from(&"alice".to_string(), &w).unwrap(), b"after".to_vec());
    let reply = restored.send_to(&"alice".to_string(), b"back", None).unwrap();
    assert_eq!(alice.receive_from(&"bob".to_string(), &reply).unwrap(), b"back".to_vec());

    // saving again replaces the session that was saved
    assert!(restored.save_client(&mut vault));
    assert_eq!(vault.sessions.len(), 1);
    assert_eq!(vault.load_session("alice"), restored.peers[0].to_bytes());
    assert_ne!(vault.load_session("alice"), bob.peers[0].to_bytes());

    // something that does not decode
    vault.save_session("carol", &[1, 2, 3]);
    assert!(SessionManager::load_client(&vault, 100).is_none());
    assert!(vault.delete_session("carol"));
    assert!(SessionManager::load_client(&vault, 100).is_some());

    let entry = &restored.peers[0];
    let bytes = entry.to_bytes().unwrap();
    assert_eq!(&bytes[..32], &entry.peer_ik[..]);
    let back = PeerSession::from_bytes(&"alice".to_string(), &bytes).unwrap();
    assert_eq!(format!("{:?}", back), format!("{:?}", entry));
    assert!(PeerSession::from_bytes(&"alice".to_string(), &bytes[..31]).is_none());
}

#[test]
fn two_sessions_with_one_name_are_not_well_formed() {
    let (_, mut bob) = talking_pair();
    assert!(bob.is_wf());
    let copy = PeerSession::from_bytes(&"alice".to_string(), &bob.peers[0].to_bytes().unwrap()).unwrap();
    bob.peers.push(copy);
    assert!(!bob.is_wf());
    let mut vault = Vault::new("bob");
    vault.save_session("a", &[1]);
    vault.save_session("b", &[2]);
    assert!(vault.is_wf());
    let first = vault.sessions[0].clone();
    vault.sessions.push(first);
    assert!(!vault.is_wf());
}

#[test]
fn user_list_from_a_response() {
    let r = ServerResponse::UserList { result: vec!["a".to_string(), "b".to_string()] };
    assert_eq!(user_list(&r), Some(vec!["a".to_string(), "b".to_string()]));
    assert_eq!(user_list(&ServerResponse::ResponseStatus { success: true }), None);
}

#[test]
fn stored_forms_are_encrypted_at_rest() {
    let key = storage_key(&"hunter42".to_string(), b"vault of alice").unwrap();
    assert_eq!(storage_key(&"hunter42".to_string(), b"vault of alice"), Some(key));
    assert_ne!(storage_key(&"hunter42".to_string(), b"vault of bobby"), Some(key));
    assert_ne!(storage_key(&"hunter43".to_string(), b"vault of alice"), Some(key));
    // a salt shorter than eight bytes is not accepted
    assert_eq!(storage_key(&"hunter42".to_string(), b"short"), None);

    let stored = protect_with(&key, [3u8; 12], b"session bytes").unwrap();
    assert_eq!(&stored[..12], &[3u8; 12]);
    assert_eq!(stored.len(), 12 + 13 + 16);
    assert_ne!(&stored[12..25], b"session bytes");
    assert_eq!(unprotect(&key, &stored), Some(b"session bytes".to_vec()));
    assert_eq!(unprotect(&[0u8; 32], &stored), None);
    let mut bad = stored.clone();
    bad[20] ^= 1;
    assert_eq!(unprotect(&key, &bad), None);
    assert_eq!(unprotect(&key, &stored[..11]), None);

    let a = protect(&key, b"x").unwrap();
    let b = protect(&key, b"x").unwrap();
    assert_ne!(a, b);
    assert_eq!(unprotect(&key, &a), Some(b"x".to_vec()));
    assert_eq!(unprotect(&key, &b), Some(b"x".to_vec()));
}

#[test]
fn error_messages() {
    assert_eq!(Error::MessageKeyExpired.message(), "the key of this late message is no longer kept");
    assert_eq!(Error::AuthenticationFailed.message(), "the message was changed on its way");
    assert!(Error::AuthenticationFailed.is_expected());
    assert!(Error::TooManySkipped.is_expected());
    assert!(!Error::SessionCorrupt.is_expected());
    assert!(!Error::PeerIdentityMismatch.is_expected());
    let all = [
        Error::SignatureInvalid,
        Error::UnknownOneTimeKey,
        Error::HeaderDecryptFailed,
        Error::AuthenticationFailed,
        Error::TooManySkipped,
        Error::MessageKeyExpired,
        Error::PeerIdentityMismatch,
        Error::SessionCorrupt,
        Error::NotFound,
        Error::AlreadyPublished,
        Error::WeakSharedSecret,
        Error::MessageTooLong,
        Error::NoEntropy,
        Error::UnknownPeer,
    ];
    for (i, a) in all.iter().enumerate() {
        for b in &all[i + 1..] {
            assert_ne!(a.message(), b.message());
        }
    }
}

#[test]
fn supplying_no_prekeys_changes_nothing() {
    let mut bundle = KeyBundle::from_secrets([2u8; 32], [3u8; 32], [4u8; 32], &vec![[5u8; 32]]);
    let before = format!("{:?}", bundle);
    assert_eq!(bundle.supply_opks(0), Ok(vec![]));
    assert_eq!(format!("{:?}", bundle), before);
    assert_eq!(KeyBundle::generate(0).unwrap().opks.len(), 0);
}
