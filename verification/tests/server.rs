use mini_signal::directory::{action_handler, ServerState};
use mini_signal::protocol::{
    bundle_from_response, merge_signature, publish_action, send_action, split_signature,
    stored_from_wire, succeeded, wire_from_stored, Action, ServerResponse, StoredMessage,
};
use mini_signal::bundle::KeyBundle;
use mini_signal::wire::{Preamble, WireMessage};

fn ok(r: &ServerResponse) -> bool {
    matches!(r, ServerResponse::ResponseStatus { success: true })
}

fn refused(r: &ServerResponse) -> bool {
    matches!(r, ServerResponse::ResponseStatus { success: false })
}

fn register_and_log_in(state: &mut ServerState, name: &str, address: &str) {
    let r = action_handler(state, Action::NewUser { username: name.to_string(), password: "pw".to_string() }, &address.to_string());
    assert!(ok(&r));
    let r = action_handler(state, Action::LogIn { username: name.to_string(), password: "pw".to_string() }, &address.to_string());
    assert!(ok(&r));
}

fn publish(state: &mut ServerState, address: &str, tag: u8, opks: Vec<[u8; 32]>) -> ServerResponse {
    action_handler(
        state,
        Action::PublishX3DHInformation {
            ik: [tag; 32],
            spk: [tag + 1; 32],
            opk_bundle: opks,
            signature: [[tag + 2; 32], [tag + 3; 32]],
            verifying_key: [tag + 4; 32],
        },
        &address.to_string(),
    )
}

fn send(state: &mut ServerState, address: &str, to: &str, body: u8) -> ServerResponse {
    action_handler(
        state,
        Action::SendMessage {
            username_receiver: to.to_string(),
            header_encrypted: vec![body],
            header_nonce: vec![0; 12],
            ciphertext: vec![body, body],
            nonce: vec![1; 12],
            ek_sender: None,
            opk_used: None,
            ik_sender: None,
        },
        &address.to_string(),
    )
}

#[test]
fn accounts_and_logins() {
    let mut s = ServerState::new();
    let a = "10.0.0.1:1".to_string();
    let r = action_handler(&mut s, Action::NewUser { username: "alice".to_string(), password: "pw".to_string() }, &a);
    assert!(ok(&r));
    // a name is registered once
    let r = action_handler(&mut s, Action::NewUser { username: "alice".to_string(), password: "other".to_string() }, &a);
    assert!(refused(&r));
    assert_eq!(s.accounts.len(), 1);
    // a wrong password, an unknown user
    assert!(refused(&action_handler(&mut s, Action::LogIn { username: "alice".to_string(), password: "no".to_string() }, &a)));
    assert!(refused(&action_handler(&mut s, Action::LogIn { username: "bob".to_string(), password: "pw".to_string() }, &a)));
    assert!(refused(&action_handler(&mut s, Action::LogOut, &a)));
    assert!(ok(&action_handler(&mut s, Action::LogIn { username: "alice".to_string(), password: "pw".to_string() }, &a)));
    // an address logs in once
    assert!(refused(&action_handler(&mut s, Action::LogIn { username: "alice".to_string(), password: "pw".to_string() }, &a)));
    assert_eq!(s.logins.len(), 1);
    assert_eq!(s.user_at(&a), Some("alice".to_string()));
    assert!(ok(&action_handler(&mut s, Action::LogOut, &a)));
    assert!(refused(&action_handler(&mut s, Action::LogOut, &a)));
    assert_eq!(s.user_at(&a), None);
}

#[test]
fn requests_need_a_login() {
    let mut s = ServerState::new();
    let a = "10.0.0.1:1".to_string();
    assert!(refused(&action_handler(&mut s, Action::GetAllUsers, &a)));
    assert!(refused(&action_handler(&mut s, Action::GetMessages, &a)));
    assert!(refused(&publish(&mut s, "10.0.0.1:1", 1, vec![])));
    assert!(refused(&action_handler(&mut s, Action::GetUserPublicKeys { username: "bob".to_string() }, &a)));
    assert!(refused(&action_handler(&mut s, Action::SupplyX3DHOneTimePreKeyBundle { opk_bundle: vec![] }, &a)));
    assert!(refused(&action_handler(
        &mut s,
        Action::UpdateX3DHSignedPreKey { spk: [0; 32], signature: [[0; 32]; 2], verifying_key: [0; 32] },
        &a
    )));
    assert!(refused(&send(&mut s, "10.0.0.1:1", "bob", 1)));
    assert!(s.keys.is_empty() && s.mailbox.is_empty());
}

#[test]
fn published_keys_and_one_time_prekeys() {
    let mut s = ServerState::new();
    register_and_log_in(&mut s, "alice", "a");
    register_and_log_in(&mut s, "bob", "b");
    // nothing published yet
    assert!(refused(&action_handler(&mut s, Action::GetUserPublicKeys { username: "bob".to_string() }, &"a".to_string())));
    assert!(refused(&action_handler(&mut s, Action::SupplyX3DHOneTimePreKeyBundle { opk_bundle: vec![[9; 32]] }, &"b".to_string())));
    assert!(ok(&publish(&mut s, "b", 10, vec![[20; 32], [21; 32]])));
    // an identity key is published once
    assert!(refused(&publish(&mut s, "b", 50, vec![])));
    assert_eq!(s.keys.len(), 1);
    assert_eq!(s.keys[0].ik, [10; 32]);

    let fetch = |s: &mut ServerState| action_handler(s, Action::GetUserPublicKeys { username: "bob".to_string() }, &"a".to_string());
    match fetch(&mut s) {
        ServerResponse::UserPublicKeys { ik, spk, opk, signature, verifying_key } => {
            assert_eq!(ik, [10; 32]);
            assert_eq!(spk, [11; 32]);
            assert_eq!(opk, Some([20; 32]));
            assert_eq!(signature, [[12; 32], [13; 32]]);
            assert_eq!(verifying_key, [14; 32]);
        }
        other => panic!("{:?}", other),
    }
    assert_eq!(s.keys[0].opks, vec![[21; 32]]);
    assert!(matches!(fetch(&mut s), ServerResponse::UserPublicKeys { opk: Some(k), .. } if k == [21; 32]));
    // the pool is exhausted: the keys come without a one-time prekey
    assert!(matches!(fetch(&mut s), ServerResponse::UserPublicKeys { opk: None, .. }));

    assert!(ok(&action_handler(&mut s, Action::SupplyX3DHOneTimePreKeyBundle { opk_bundle: vec![[30; 32], [31; 32]] }, &"b".to_string())));
    assert_eq!(s.keys[0].opks, vec![[30; 32], [31; 32]]);
    assert!(matches!(fetch(&mut s), ServerResponse::UserPublicKeys { opk: Some(k), .. } if k == [30; 32]));

    assert!(ok(&action_handler(
        &mut s,
        Action::UpdateX3DHSignedPreKey { spk: [40; 32], signature: [[41; 32], [42; 32]], verifying_key: [43; 32] },
        &"b".to_string()
    )));
    assert_eq!(s.keys[0].spk, [40; 32]);
    assert_eq!(s.keys[0].signature, [[41; 32], [42; 32]]);
    assert_eq!(s.keys[0].verifying_key, [43; 32]);
    assert_eq!(s.keys[0].ik, [10; 32]);
    // alice published nothing: nothing to update
    assert!(refused(&action_handler(
        &mut s,
        Action::UpdateX3DHSignedPreKey { spk: [40; 32], signature: [[41; 32], [42; 32]], verifying_key: [43; 32] },
        &"a".to_string()
    )));
}

#[test]
fn user_list_leaves_out_the_asker() {
    let mut s = ServerState::new();
    for (name, address, tag) in [("alice", "a", 1u8), ("bob", "b", 2), ("carol", "c", 3)] {
        register_and_log_in(&mut s, name, address);
        assert!(ok(&publish(&mut s, address, tag * 10, vec![])));
    }
    match action_handler(&mut s, Action::GetAllUsers, &"b".to_string()) {
        ServerResponse::UserList { result } => assert_eq!(result, vec!["alice".to_string(), "carol".to_string()]),
        other => panic!("{:?}", other),
    }
}

#[test]
fn mailbox_stores_and_forwards() {
    let mut s = ServerState::new();
    register_and_log_in(&mut s, "alice", "a");
    register_and_log_in(&mut s, "bob", "b");
    register_and_log_in(&mut s, "carol", "c");
    assert!(ok(&publish(&mut s, "b", 10, vec![])));
    assert!(ok(&publish(&mut s, "c", 20, vec![])));
    // alice published nothing: nobody can write to her
    assert!(refused(&send(&mut s, "b", "alice", 1)));
    // nobody writes to themselves
    assert!(refused(&send(&mut s, "b", "bob", 1)));
    assert!(ok(&send(&mut s, "a", "bob", 1)));
    assert!(ok(&send(&mut s, "c", "bob", 2)));
    assert!(ok(&send(&mut s, "a", "carol", 3)));
    assert!(ok(&send(&mut s, "a", "bob", 4)));
    assert_eq!(s.mailbox.len(), 4);

    match action_handler(&mut s, Action::GetMessages, &"b".to_string()) {
        ServerResponse::Messages { success, new_messages, messages } => {
            assert!(success && new_messages);
            let m = messages.unwrap();
            let got: Vec<(String, Vec<u8>)> = m.iter().map(|x| (x.sender.clone(), x.header_encrypted.clone())).collect();
            assert_eq!(
                got,
                vec![("alice".to_string(), vec![1]), ("carol".to_string(), vec![2]), ("alice".to_string(), vec![4])]
            );
            assert_eq!(m[0].ciphertext, vec![1, 1]);
        }
        other => panic!("{:?}", other),
    }
    // handed out once
    assert_eq!(s.mailbox.len(), 1);
    assert_eq!(s.mailbox[0].receiver, "carol");
    assert!(matches!(
        action_handler(&mut s, Action::GetMessages, &"b".to_string()),
        ServerResponse::Messages { success: true, new_messages: false, messages: None }
    ));
}

#[test]
fn signature_halves() {
    let mut sig = [0u8; 64];
    for (i, b) in sig.iter_mut().enumerate() {
        *b = i as u8;
    }
    let halves = split_signature(&sig);
    assert_eq!(&halves[0][..], &sig[..32]);
    assert_eq!(&halves[1][..], &sig[32..]);
    assert_eq!(merge_signature(&halves), sig);
}

#[test]
fn requests_from_library_values() {
    let mut bundle = KeyBundle::from_secrets([2u8; 32], [3u8; 32], [4u8; 32], &vec![[5u8; 32]]);
    let keys = bundle.publish().unwrap();
    match publish_action(&keys) {
        Action::PublishX3DHInformation { ik, spk, opk_bundle, signature, verifying_key } => {
            assert_eq!(ik, bundle.identity.public);
            assert_eq!(spk, bundle.spk.public);
            assert_eq!(opk_bundle, vec![bundle.opks[0].public]);
            assert_eq!(merge_signature(&signature), bundle.spk_signature);
            assert_eq!(verifying_key, bundle.verifying_key);
        }
        other => panic!("{:?}", other),
    }

    let response = ServerResponse::UserPublicKeys {
        ik: keys.ik,
        spk: keys.spk,
        opk: Some(keys.opks[0]),
        signature: split_signature(&keys.spk_signature),
        verifying_key: keys.verifying_key,
    };
    let fetched = bundle_from_response(&response).unwrap();
    assert_eq!(fetched.spk_signature, bundle.spk_signature);
    assert_eq!(fetched.opk, Some(bundle.opks[0].public));
    assert_eq!(fetched.verify(), Ok(()));
    assert!(bundle_from_response(&ServerResponse::ResponseStatus { success: true }).is_none());

    assert!(succeeded(&ServerResponse::ResponseStatus { success: true }));
    assert!(!succeeded(&ServerResponse::ResponseStatus { success: false }));
    assert!(!succeeded(&ServerResponse::UserList { result: vec![] }));
}

#[test]
fn wire_messages_and_stored_messages() {
    let p = Preamble { ik_sender: [1; 32], ek_sender: [2; 32], opk_used: Some([3; 32]) };
    let w = WireMessage { preamble: Some(p), header_ct: vec![7, 8], header_nonce: [4; 12], body: vec![9], body_nonce: [5; 12] };
    match send_action(&"bob".to_string(), &w) {
        Action::SendMessage { username_receiver, header_encrypted, header_nonce, ciphertext, nonce, ek_sender, opk_used, ik_sender } => {
            assert_eq!(username_receiver, "bob");
            assert_eq!(header_encrypted, vec![7, 8]);
            assert_eq!(header_nonce, vec![4; 12]);
            assert_eq!(ciphertext, vec![9]);
            assert_eq!(nonce, vec![5; 12]);
            assert_eq!((ek_sender, opk_used, ik_sender), (Some([2; 32]), Some([3; 32]), Some([1; 32])));
        }
        other => panic!("{:?}", other),
    }
    let stored = stored_from_wire(&"alice".to_string(), &w);
    assert_eq!(stored.sender, "alice");
    let back = wire_from_stored(&stored).unwrap();
    assert_eq!(format!("{:?}", back), format!("{:?}", w));

    let plain = WireMessage { preamble: None, header_ct: vec![], header_nonce: [4; 12], body: vec![], body_nonce: [5; 12] };
    let stored = stored_from_wire(&"alice".to_string(), &plain);
    assert_eq!((stored.ek_sender, stored.opk_used, stored.ik_sender), (None, None, None));
    assert!(wire_from_stored(&stored).unwrap().preamble.is_none());

    let shaped = |f: &dyn Fn(&mut StoredMessage)| {
        let mut m = stored_from_wire(&"alice".to_string(), &w);
        f(&mut m);
        wire_from_stored(&m).is_some()
    };
    assert!(shaped(&|_| {}));
    assert!(!shaped(&|m| m.header_nonce.push(0)));
    assert!(!shaped(&|m| m.nonce.truncate(11)));
    assert!(!shaped(&|m| m.ik_sender = None));
    assert!(!shaped(&|m| m.ek_sender = None));
    assert!(!shaped(&|m| {
        m.ek_sender = None;
        m.ik_sender = None;
    }));
    assert!(shaped(&|m| m.opk_used = None));
}
