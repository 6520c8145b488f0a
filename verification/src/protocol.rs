//! The requests and responses that client and server exchange, and the
//! conversions between them and the library's own types.

use vstd::prelude::*;
use crate::bundle::{PrekeyBundle, PublishedKeys};
use crate::bytes::{append, take, to_vec};
use crate::primitives::opt_seq;
use crate::wire::{Preamble, PreambleView, WireMessage, WireView};

verus! {

/// A stored message as the server keeps and returns it.
#[derive(Clone, Debug)]
pub struct StoredMessage {
    pub sender: String,
    pub header_encrypted: Vec<u8>,
    pub header_nonce: Vec<u8>,
    pub ciphertext: Vec<u8>,
    pub nonce: Vec<u8>,
    pub ek_sender: Option<[u8; 32]>,
    pub opk_used: Option<[u8; 32]>,
    pub ik_sender: Option<[u8; 32]>,
}

/// A request of a client.
#[derive(Clone, Debug)]
pub enum Action {
    NewUser { username: String, password: String },
    LogIn { username: String, password: String },
    LogOut,
    GetAllUsers,
    GetMessages,
    PublishX3DHInformation {
        ik: [u8; 32],
        spk: [u8; 32],
        opk_bundle: Vec<[u8; 32]>,
        signature: [[u8; 32]; 2],
        verifying_key: [u8; 32],
    },
    UpdateX3DHSignedPreKey { spk: [u8; 32], signature: [[u8; 32]; 2], verifying_key: [u8; 32] },
    SupplyX3DHOneTimePreKeyBundle { opk_bundle: Vec<[u8; 32]> },
    GetUserPublicKeys { username: String },
    SendMessage {
        username_receiver: String,
        header_encrypted: Vec<u8>,
        header_nonce: Vec<u8>,
        ciphertext: Vec<u8>,
        nonce: Vec<u8>,
        ek_sender: Option<[u8; 32]>,
        opk_used: Option<[u8; 32]>,
        ik_sender: Option<[u8; 32]>,
    },
}

/// A response of the server.
#[derive(Clone, Debug)]
pub enum ServerResponse {
    UserList { result: Vec<String> },
    ResponseStatus { success: bool },
    UserPublicKeys {
        ik: [u8; 32],
        spk: [u8; 32],
        opk: Option<[u8; 32]>,
        signature: [[u8; 32]; 2],
        verifying_key: [u8; 32],
    },
    Messages { success: bool, new_messages: bool, messages: Option<Vec<StoredMessage>> },
}

/// The two halves of a signature, as the requests carry it.
pub fn split_signature(signature: &[u8; 64]) -> (out: [[u8; 32]; 2])
    ensures
        out@[0]@ == signature@.subrange(0, 32),
        out@[1]@ == signature@.subrange(32, 64),
        out@[0]@ + out@[1]@ == signature@,
{
    let r = take::<32>(signature, 0);
    let s = take::<32>(signature, 32);
    let out = [r, s];
    out
}

/// The signature that two halves make.
pub fn merge_signature(halves: &[[u8; 32]; 2]) -> (out: [u8; 64])
    ensures
        out@ == halves@[0]@ + halves@[1]@,
{
    let mut both: Vec<u8> = Vec::new();
    append(&mut both, &halves[0]);
    append(&mut both, &halves[1]);
    let out = take::<64>(both.as_slice(), 0);
    out
}

/// The request that publishes a user's keys.
pub fn publish_action(keys: &PublishedKeys) -> (out: Action)
    ensures
        out matches Action::PublishX3DHInformation { ik, spk, opk_bundle, signature, verifying_key }
            && ik == keys.ik && spk == keys.spk && opk_bundle@ == keys.opks@ && signature@[0]@
            + signature@[1]@ == keys.spk_signature@ && verifying_key == keys.verifying_key,
{
    let mut opk_bundle: Vec<[u8; 32]> = Vec::new();
    let mut i: usize = 0;
    while i < keys.opks.len()
        invariant
            i <= keys.opks@.len(),
            opk_bundle@ == keys.opks@.subrange(0, i as int),
        decreases keys.opks@.len() - i,
    {
        opk_bundle.push(keys.opks[i]);
        i += 1;
    }
    Action::PublishX3DHInformation {
        ik: keys.ik,
        spk: keys.spk,
        opk_bundle,
        signature: split_signature(&keys.spk_signature),
        verifying_key: keys.verifying_key,
    }
}

/// Whether a response reports success. Any other kind of response counts
/// as a failure.
pub fn succeeded(response: &ServerResponse) -> (out: bool)
    ensures
        out == (*response matches ServerResponse::ResponseStatus { success } && success),
{
    match response {
        ServerResponse::ResponseStatus { success } => *success,
        _ => false,
    }
}

/// The prekey bundle that a response carries: `None` unless the response
/// holds a user's public keys.
pub fn bundle_from_response(response: &ServerResponse) -> (out: Option<PrekeyBundle>)
    ensures
        match out {
            Some(b) => *response matches ServerResponse::UserPublicKeys {
                ik,
                spk,
                opk,
                signature,
                verifying_key,
            } && b.ik == ik && b.spk == spk && b.opk == opk && b.verifying_key == verifying_key
                && b.spk_signature@ == signature@[0]@ + signature@[1]@,
            None => !(response is UserPublicKeys),
        },
{
    match response {
        ServerResponse::UserPublicKeys { ik, spk, opk, signature, verifying_key } => Some(
            PrekeyBundle {
                ik: *ik,
                spk: *spk,
                spk_signature: merge_signature(signature),
                verifying_key: *verifying_key,
                opk: *opk,
            },
        ),
        _ => None,
    }
}

/// The request that sends `w` to `receiver`.
pub fn send_action(receiver: &String, w: &WireMessage) -> (out: Action)
    ensures
        out matches Action::SendMessage {
            username_receiver,
            header_encrypted,
            header_nonce,
            ciphertext,
            nonce,
            ek_sender,
            opk_used,
            ik_sender,
        } && username_receiver@ == receiver@ && header_encrypted@ == w.header_ct@ && header_nonce@
            == w.header_nonce@ && ciphertext@ == w.body@ && nonce@ == w.body_nonce@ && match w.preamble {
            Some(p) => ek_sender == Some(p.ek_sender) && ik_sender == Some(p.ik_sender) && opk_used
                == p.opk_used,
            None => ek_sender is None && ik_sender is None && opk_used is None,
        },
{
    let (ek_sender, opk_used, ik_sender) = match w.preamble {
        Some(p) => (Some(p.ek_sender), p.opk_used, Some(p.ik_sender)),
        None => (None, None, None),
    };
    Action::SendMessage {
        username_receiver: receiver.clone(),
        header_encrypted: to_vec(w.header_ct.as_slice()),
        header_nonce: to_vec(&w.header_nonce),
        ciphertext: to_vec(w.body.as_slice()),
        nonce: to_vec(&w.body_nonce),
        ek_sender,
        opk_used,
        ik_sender,
    }
}

/// Whether a stored message has the shape of a wire message: both nonces
/// have twelve bytes, and the sender's identity and ephemeral keys come
/// together or not at all, a one-time prekey only with them.
pub open spec fn spec_stored_ok(m: StoredMessage) -> bool {
    &&& m.header_nonce@.len() == 12
    &&& m.nonce@.len() == 12
    &&& m.ek_sender is Some <==> m.ik_sender is Some
    &&& m.opk_used is Some ==> m.ek_sender is Some
}

/// The wire message that a stored message of that shape holds.
pub open spec fn spec_wire_of(m: StoredMessage) -> WireView {
    WireView {
        preamble: match (m.ik_sender, m.ek_sender) {
            (Some(ik), Some(ek)) => Some(
                PreambleView { ik_sender: ik@, ek_sender: ek@, opk_used: opt_seq(m.opk_used) },
            ),
            _ => None,
        },
        header_ct: m.header_encrypted@,
        header_nonce: m.header_nonce@,
        body: m.ciphertext@,
        body_nonce: m.nonce@,
    }
}

/// The names that a response lists: `None` unless the response is a list of
/// users.
pub fn user_list(response: &ServerResponse) -> (out: Option<Vec<String>>)
    ensures
        match out {
            Some(names) => *response matches ServerResponse::UserList { result } && names_view(
                names@,
            ) == names_view(result@),
            None => !(response is UserList),
        },
{
    match response {
        ServerResponse::UserList { result } => {
            let mut names: Vec<String> = Vec::new();
            let mut i: usize = 0;
            while i < result.len()
                invariant
                    i <= result@.len(),
                    names@.len() == i,
                    forall|j: int| 0 <= j < i ==> names@[j]@ == result@[j]@,
                decreases result@.len() - i,
            {
                names.push(result[i].clone());
                i += 1;
            }
            Some(names)
        },
        _ => None,
    }
}

/// The wire message that a stored message holds; `None` when it has not the
/// shape of one.
pub fn wire_from_stored(m: &StoredMessage) -> (out: Option<WireMessage>)
    ensures
        out matches Some(w) ==> w@ == spec_wire_of(*m),
        match out {
            Some(w) => {
                &&& spec_stored_ok(*m)
                &&& w.header_ct@ == m.header_encrypted@
                &&& w.header_nonce@ == m.header_nonce@
                &&& w.body@ == m.ciphertext@
                &&& w.body_nonce@ == m.nonce@
                &&& match w.preamble {
                    Some(p) => m.ik_sender == Some(p.ik_sender) && m.ek_sender == Some(p.ek_sender)
                        && m.opk_used == p.opk_used,
                    None => m.ik_sender is None && m.ek_sender is None && m.opk_used is None,
                }
            },
            None => !spec_stored_ok(*m),
        },
{
    if m.header_nonce.len() != 12 || m.nonce.len() != 12 {
        return None;
    }
    let preamble = match (m.ik_sender, m.ek_sender) {
        (Some(ik_sender), Some(ek_sender)) => Some(Preamble { ik_sender, ek_sender, opk_used: m.opk_used }),
        (None, None) => {
            if m.opk_used.is_some() {
                return None;
            }
            None
        },
        _ => { return None; },
    };
    let header_nonce = take::<12>(m.header_nonce.as_slice(), 0);
    let body_nonce = take::<12>(m.nonce.as_slice(), 0);
    assert(header_nonce@ =~= m.header_nonce@);
    assert(body_nonce@ =~= m.nonce@);
    Some(
        WireMessage {
            preamble,
            header_ct: to_vec(m.header_encrypted.as_slice()),
            header_nonce,
            body: to_vec(m.ciphertext.as_slice()),
            body_nonce,
        },
    )
}

/// The stored form of a request to send, as the server keeps it for the
/// receiver.
pub fn stored_from_wire(sender: &String, w: &WireMessage) -> (out: StoredMessage)
    ensures
        out.sender@ == sender@,
        out.header_encrypted@ == w.header_ct@,
        out.header_nonce@ == w.header_nonce@,
        out.ciphertext@ == w.body@,
        out.nonce@ == w.body_nonce@,
        match w.preamble {
            Some(p) => out.ek_sender == Some(p.ek_sender) && out.ik_sender == Some(p.ik_sender)
                && out.opk_used == p.opk_used,
            None => out.ek_sender is None && out.ik_sender is None && out.opk_used is None,
        },
        spec_stored_ok(out),
{
    let (ek_sender, opk_used, ik_sender) = match w.preamble {
        Some(p) => (Some(p.ek_sender), p.opk_used, Some(p.ik_sender)),
        None => (None, None, None),
    };
    StoredMessage {
        sender: sender.clone(),
        header_encrypted: to_vec(w.header_ct.as_slice()),
        header_nonce: to_vec(&w.header_nonce),
        ciphertext: to_vec(w.body.as_slice()),
        nonce: to_vec(&w.body_nonce),
        ek_sender,
        opk_used,
        ik_sender,
    }
}

/// The mathematical view of a stored message.
pub struct StoredMessageView {
    pub sender: Seq<char>,
    pub header_encrypted: Seq<u8>,
    pub header_nonce: Seq<u8>,
    pub ciphertext: Seq<u8>,
    pub nonce: Seq<u8>,
    pub ek_sender: Option<[u8; 32]>,
    pub opk_used: Option<[u8; 32]>,
    pub ik_sender: Option<[u8; 32]>,
}

impl View for StoredMessage {
    type V = StoredMessageView;

    open spec fn view(&self) -> StoredMessageView {
        StoredMessageView {
            sender: self.sender@,
            header_encrypted: self.header_encrypted@,
            header_nonce: self.header_nonce@,
            ciphertext: self.ciphertext@,
            nonce: self.nonce@,
            ek_sender: self.ek_sender,
            opk_used: self.opk_used,
            ik_sender: self.ik_sender,
        }
    }
}

/// The views of stored messages, in order.
pub open spec fn messages_view(messages: Seq<StoredMessage>) -> Seq<StoredMessageView> {
    messages.map_values(|m: StoredMessage| m@)
}

/// The views of names, in order.
pub open spec fn names_view(names: Seq<String>) -> Seq<Seq<char>> {
    names.map_values(|n: String| n@)
}

/// The mathematical view of a request.
pub enum ActionView {
    NewUser { username: Seq<char>, password: Seq<char> },
    LogIn { username: Seq<char>, password: Seq<char> },
    LogOut,
    GetAllUsers,
    GetMessages,
    PublishX3DHInformation {
        ik: [u8; 32],
        spk: [u8; 32],
        opk_bundle: Seq<[u8; 32]>,
        signature: [[u8; 32]; 2],
        verifying_key: [u8; 32],
    },
    UpdateX3DHSignedPreKey { spk: [u8; 32], signature: [[u8; 32]; 2], verifying_key: [u8; 32] },
    SupplyX3DHOneTimePreKeyBundle { opk_bundle: Seq<[u8; 32]> },
    GetUserPublicKeys { username: Seq<char> },
    SendMessage { username_receiver: Seq<char>, message: StoredMessageView },
}

impl View for Action {
    type V = ActionView;

    open spec fn view(&self) -> ActionView {
        match *self {
            Action::NewUser { username, password } => ActionView::NewUser {
                username: username@,
                password: password@,
            },
            Action::LogIn { username, password } => ActionView::LogIn {
                username: username@,
                password: password@,
            },
            Action::LogOut => ActionView::LogOut,
            Action::GetAllUsers => ActionView::GetAllUsers,
            Action::GetMessages => ActionView::GetMessages,
            Action::PublishX3DHInformation { ik, spk, opk_bundle, signature, verifying_key } => {
                ActionView::PublishX3DHInformation {
                    ik,
                    spk,
                    opk_bundle: opk_bundle@,
                    signature,
                    verifying_key,
                }
            },
            Action::UpdateX3DHSignedPreKey { spk, signature, verifying_key } => {
                ActionView::UpdateX3DHSignedPreKey { spk, signature, verifying_key }
            },
            Action::SupplyX3DHOneTimePreKeyBundle { opk_bundle } => {
                ActionView::SupplyX3DHOneTimePreKeyBundle { opk_bundle: opk_bundle@ }
            },
            Action::GetUserPublicKeys { username } => ActionView::GetUserPublicKeys {
                username: username@,
            },
            Action::SendMessage {
                username_receiver,
                header_encrypted,
                header_nonce,
                ciphertext,
                nonce,
                ek_sender,
                opk_used,
                ik_sender,
            } => ActionView::SendMessage {
                username_receiver: username_receiver@,
                message: StoredMessageView {
                    sender: Seq::empty(),
                    header_encrypted: header_encrypted@,
                    header_nonce: header_nonce@,
                    ciphertext: ciphertext@,
                    nonce: nonce@,
                    ek_sender,
                    opk_used,
                    ik_sender,
                },
            },
        }
    }
}

/// The mathematical view of a response.
pub enum ResponseView {
    UserList { result: Seq<Seq<char>> },
    ResponseStatus { success: bool },
    UserPublicKeys {
        ik: [u8; 32],
        spk: [u8; 32],
        opk: Option<[u8; 32]>,
        signature: [[u8; 32]; 2],
        verifying_key: [u8; 32],
    },
    Messages { success: bool, new_messages: bool, messages: Option<Seq<StoredMessageView>> },
}

impl View for ServerResponse {
    type V = ResponseView;

    open spec fn view(&self) -> ResponseView {
        match *self {
            ServerResponse::UserList { result } => ResponseView::UserList {
                result: names_view(result@),
            },
            ServerResponse::ResponseStatus { success } => ResponseView::ResponseStatus { success },
            ServerResponse::UserPublicKeys { ik, spk, opk, signature, verifying_key } => {
                ResponseView::UserPublicKeys { ik, spk, opk, signature, verifying_key }
            },
            ServerResponse::Messages { success, new_messages, messages } => ResponseView::Messages {
                success,
                new_messages,
                messages: match messages {
                    Some(m) => Some(messages_view(m@)),
                    None => None,
                },
            },
        }
    }
}

/// A copy of a stored message.
pub fn copy_message(m: &StoredMessage) -> (out: StoredMessage)
    ensures
        out@ == m@,
{
    StoredMessage {
        sender: m.sender.clone(),
        header_encrypted: to_vec(m.header_encrypted.as_slice()),
        header_nonce: to_vec(m.header_nonce.as_slice()),
        ciphertext: to_vec(m.ciphertext.as_slice()),
        nonce: to_vec(m.nonce.as_slice()),
        ek_sender: m.ek_sender,
        opk_used: m.opk_used,
        ik_sender: m.ik_sender,
    }
}

} // verus!
