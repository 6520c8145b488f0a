//! The session manager: one user's sessions, by peer name. It starts a
//! session by a handshake on first contact, in either direction, and hands
//! every later message to the session that exists.

use vstd::prelude::*;
use crate::bundle::{KeyBundle, PrekeyBundle, PrekeyBundleView};
use crate::bytes::bytes_eq;
use crate::errors::Error;
use crate::primitives::{KeyPair, random_nonce, random_secret};
use crate::protocol::{StoredMessage, spec_stored_ok, spec_wire_of, wire_from_stored};
use crate::session::{Session, SessionView, spec_encrypt, spec_decrypt, spec_init_as_sender, spec_init_as_receiver};
use crate::wire::{WireMessage, WireView};
use crate::x3dh::{spec_initiate, spec_respond_to, initiate_with, respond_to};

verus! {

/// A session together with the peer it belongs to.
#[derive(Debug)]
pub struct PeerSession {
    /// The peer's name.
    pub peer: String,
    /// The peer's identity public key, as the handshake saw it.
    pub peer_ik: [u8; 32],
    /// The session with the peer.
    pub session: Session,
}

/// The mathematical view of a peer's entry.
pub struct PeerView {
    pub peer: Seq<char>,
    pub peer_ik: Seq<u8>,
    pub session: SessionView,
}

impl View for PeerSession {
    type V = PeerView;

    open spec fn view(&self) -> PeerView {
        PeerView { peer: self.peer@, peer_ik: self.peer_ik@, session: self.session@ }
    }
}

/// The views of the entries, in order.
pub open spec fn peers_view(peers: Seq<PeerSession>) -> Seq<PeerView> {
    peers.map_values(|p: PeerSession| p@)
}

/// The random values that sending may use: an ephemeral secret and a
/// ratchet secret for a handshake, and a header nonce.
#[derive(Clone, Copy, Debug)]
pub struct Fresh {
    pub ephemeral: [u8; 32],
    pub ratchet: [u8; 32],
    pub nonce: [u8; 12],
}

/// The mathematical view of the random values.
pub struct FreshView {
    pub ephemeral: Seq<u8>,
    pub ratchet: Seq<u8>,
    pub nonce: Seq<u8>,
}

impl View for Fresh {
    type V = FreshView;

    open spec fn view(&self) -> FreshView {
        FreshView { ephemeral: self.ephemeral@, ratchet: self.ratchet@, nonce: self.nonce@ }
    }
}

impl Fresh {
    /// Random values from the operating system, or `None` when it gives
    /// none.
    pub fn draw() -> (out: Option<Fresh>)
    {
        match (random_secret(), random_secret(), random_nonce()) {
            (Some(ephemeral), Some(ratchet), Some(nonce)) => Some(Fresh { ephemeral, ratchet, nonce }),
            _ => None,
        }
    }
}

/// The sessions of one user.
#[derive(Debug)]
pub struct SessionManager {
    /// The user's own keys.
    pub keys: KeyBundle,
    /// The sessions, in the order in which they were started.
    pub peers: Vec<PeerSession>,
    /// The limit on skipped keys that new sessions get.
    pub max_skip: u32,
}

/// The index of the first entry at or after `from` with the name `name`.
pub open spec fn spec_find_peer(peers: Seq<PeerView>, name: Seq<char>, from: nat) -> Option<nat>
    decreases peers.len() - from,
{
    if from >= peers.len() {
        None
    } else if peers[from as int].peer == name {
        Some(from)
    } else {
        spec_find_peer(peers, name, from + 1)
    }
}

/// A found index lies in the list and holds the name; nothing is found only
/// when no entry has the name.
pub proof fn lemma_find_peer(peers: Seq<PeerView>, name: Seq<char>, from: nat)
    ensures
        match spec_find_peer(peers, name, from) {
            Some(i) => from <= i < peers.len() && peers[i as int].peer == name && forall|j: int|
                from <= j < i ==> peers[j].peer != name,
            None => forall|j: int| from <= j < peers.len() ==> peers[j].peer != name,
        },
    decreases peers.len() - from,
{
    if from < peers.len() && peers[from as int].peer != name {
        lemma_find_peer(peers, name, from + 1);
    }
}

/// Sending `plaintext` to `name`. With a session, the message is its next
/// message. Without one, the peer's published keys are needed: the handshake
/// runs, the session starts as sender, and the first message carries the
/// preamble. Nothing is kept of a send that fails.
pub open spec fn spec_send_to(
    keys: KeyBundle,
    peers: Seq<PeerView>,
    max_skip: nat,
    name: Seq<char>,
    plaintext: Seq<u8>,
    bundle: Option<PrekeyBundleView>,
    fresh: FreshView,
) -> Result<(Seq<PeerView>, WireView), Error> {
    match spec_find_peer(peers, name, 0) {
        Some(i) => match spec_encrypt(peers[i as int].session, plaintext, Seq::empty(), fresh.nonce) {
            Ok((s, w)) => Ok((peers.update(i as int, PeerView { session: s, ..peers[i as int] }), w)),
            Err(e) => Err(e),
        },
        None => match bundle {
            None => Err(Error::UnknownPeer),
            Some(b) => match spec_initiate(
                keys.identity.secret@,
                keys.identity.public@,
                fresh.ephemeral,
                b,
            ) {
                Err(e) => Err(e),
                Ok(h) => match spec_init_as_sender(h.sk, h.ad, b.spk, fresh.ratchet, max_skip) {
                    Err(e) => Err(e),
                    Ok(start) => match spec_encrypt(start, plaintext, Seq::empty(), fresh.nonce) {
                        Err(e) => Err(e),
                        Ok((s, w)) => Ok(
                            (
                                peers.push(PeerView { peer: name, peer_ik: b.ik, session: s }),
                                WireView { preamble: Some(h.preamble), ..w },
                            ),
                        ),
                    },
                },
            },
        },
    }
}

/// Receiving `w` from `name`. With a session, a preamble that names another
/// identity key than the session's is refused, and any other message goes to
/// the session. Without one, the message must carry a preamble: the
/// responder's half of the handshake runs, the session starts as receiver
/// and reads the message, and only then the one-time prekey leaves the pool.
/// The result holds the pool, the sessions and the plaintext.
pub open spec fn spec_receive_from(
    keys: KeyBundle,
    peers: Seq<PeerView>,
    max_skip: nat,
    name: Seq<char>,
    w: WireView,
    fresh: Seq<u8>,
) -> Result<(Seq<KeyPair>, Seq<PeerView>, Seq<u8>), Error> {
    match spec_find_peer(peers, name, 0) {
        Some(i) => if w.preamble is Some && w.preamble->0.ik_sender != peers[i as int].peer_ik {
            Err(Error::PeerIdentityMismatch)
        } else {
            match spec_decrypt(peers[i as int].session, w, Seq::empty(), fresh) {
                Ok((s, pt)) => Ok(
                    (keys.opks@, peers.update(i as int, PeerView { session: s, ..peers[i as int] }), pt),
                ),
                Err(e) => Err(e),
            }
        },
        None => match w.preamble {
            None => Err(Error::UnknownPeer),
            Some(p) => match spec_respond_to(keys, p) {
                Err(e) => Err(e),
                Ok((sk, ad, index)) => match spec_decrypt(
                    spec_init_as_receiver(sk, ad, keys.spk.secret@, keys.spk.public@, max_skip),
                    w,
                    Seq::empty(),
                    fresh,
                ) {
                    Err(e) => Err(e),
                    Ok((s, pt)) => Ok(
                        (
                            match index {
                                Some(i) => keys.opks@.remove(i as int),
                                None => keys.opks@,
                            },
                            peers.push(PeerView { peer: name, peer_ik: p.ik_sender, session: s }),
                            pt,
                        ),
                    ),
                },
            },
        },
    }
}

impl SessionManager {
    /// No two sessions are with the same peer.
    pub open spec fn wf(&self) -> bool {
        forall|i: int, j: int|
            0 <= i < j < self.peers@.len() ==> self.peers@[i].peer@ != self.peers@[j].peer@
    }

    /// Whether no two sessions are with the same peer.
    pub fn is_wf(&self) -> (out: bool)
        ensures
            out == self.wf(),
    {
        let mut j: usize = 0;
        while j < self.peers.len()
            invariant
                j <= self.peers@.len(),
                forall|a: int, b: int| 0 <= a < b < j ==> self.peers@[a].peer@ != self.peers@[b].peer@,
            decreases self.peers@.len() - j,
        {
            let mut i: usize = 0;
            while i < j
                invariant
                    i <= j,
                    j < self.peers@.len(),
                    forall|a: int| 0 <= a < i ==> self.peers@[a].peer@ != self.peers@[j as int].peer@,
                decreases j - i,
            {
                if self.peers[i].peer == self.peers[j].peer {
                    return false;
                }
                i += 1;
            }
            j += 1;
        }
        true
    }

    /// A manager without sessions.
    pub fn new(keys: KeyBundle, max_skip: u32) -> (out: SessionManager)
        ensures
            out.keys == keys,
            out.peers@.len() == 0,
            out.max_skip == max_skip,
            out.wf(),
    {
        SessionManager { keys, peers: Vec::new(), max_skip }
    }

    /// The index of the session with `name`.
    pub fn find_peer(&self, name: &String) -> (out: Option<usize>)
        ensures
            match out {
                Some(i) => spec_find_peer(peers_view(self.peers@), name@, 0) == Some(i as nat) && i
                    < self.peers@.len(),
                None => spec_find_peer(peers_view(self.peers@), name@, 0) is None,
            },
    {
        let mut i: usize = 0;
        while i < self.peers.len()
            invariant
                i <= self.peers@.len(),
                spec_find_peer(peers_view(self.peers@), name@, i as nat) == spec_find_peer(
                    peers_view(self.peers@),
                    name@,
                    0,
                ),
            decreases self.peers@.len() - i,
        {
            if self.peers[i].peer == *name {
                return Some(i);
            }
            i += 1;
        }
        None
    }

    /// Whether there is a session with `name`. Without one, sending needs
    /// the peer's published keys.
    pub fn has_session(&self, name: &String) -> (out: bool)
        ensures
            out == spec_find_peer(peers_view(self.peers@), name@, 0) is Some,
    {
        self.find_peer(name).is_some()
    }

    /// Ends the session with `name`: its entry leaves the list, the others
    /// stay in order. Returns whether there was one.
    pub fn forget(&mut self, name: &String) -> (out: bool)
        ensures
            final(self).keys == old(self).keys,
            final(self).max_skip == old(self).max_skip,
            match spec_find_peer(peers_view(old(self).peers@), name@, 0) {
                Some(i) => out && final(self).peers@ == old(self).peers@.remove(i as int),
                None => !out && final(self).peers@ == old(self).peers@,
            },
            old(self).wf() ==> final(self).wf(),
    {
        proof {
            lemma_find_peer(peers_view(self.peers@), name@, 0);
        }
        match self.find_peer(name) {
            Some(i) => {
                let _ = self.peers.remove(i);
                true
            },
            None => false,
        }
    }

    /// Sends `plaintext` to `name` with the given random values.
    pub fn send_to_with(
        &mut self,
        name: &String,
        plaintext: &[u8],
        bundle: Option<PrekeyBundle>,
        fresh: &Fresh,
    ) -> (out: Result<WireMessage, Error>)
        ensures
            final(self).keys == old(self).keys,
            final(self).max_skip == old(self).max_skip,
            match out {
                Ok(w) => spec_send_to(
                    old(self).keys,
                    peers_view(old(self).peers@),
                    old(self).max_skip as nat,
                    name@,
                    plaintext@,
                    spec_bundle(bundle),
                    fresh@,
                ) == Ok::<_, Error>((peers_view(final(self).peers@), w@)),
                Err(e) => spec_send_to(
                    old(self).keys,
                    peers_view(old(self).peers@),
                    old(self).max_skip as nat,
                    name@,
                    plaintext@,
                    spec_bundle(bundle),
                    fresh@,
                ) == Err::<(Seq<PeerView>, WireView), _>(e) && final(self).peers@ == old(
                    self,
                ).peers@,
            },
            old(self).wf() ==> final(self).wf(),
    {
        let empty: [u8; 0] = [];
        proof {
            lemma_find_peer(peers_view(self.peers@), name@, 0);
        }
        match self.find_peer(name) {
            Some(i) => {
                let ghost before = self.peers@;
                let out = self.peers[i].session.encrypt_with_nonce(plaintext, &empty, fresh.nonce);
                proof {
                    if out is Ok {
                        assert(peers_view(self.peers@) =~= peers_view(before).update(
                            i as int,
                            PeerView { session: self.peers@[i as int].session@, ..peers_view(before)[i as int] },
                        ));
                    }
                }
                out
            },
            None => {
                let b = match bundle {
                    Some(b) => b,
                    None => { return Err(Error::UnknownPeer); },
                };
                let h = match initiate_with(&self.keys.identity, fresh.ephemeral, &b) {
                    Ok(h) => h,
                    Err(e) => { return Err(e); },
                };
                let mut s = match Session::init_as_sender_with(
                    &h.sk,
                    h.ad.as_slice(),
                    &b.spk,
                    fresh.ratchet,
                    self.max_skip,
                ) {
                    Ok(s) => s,
                    Err(e) => { return Err(e); },
                };
                let mut w = match s.encrypt_with_nonce(plaintext, &empty, fresh.nonce) {
                    Ok(w) => w,
                    Err(e) => { return Err(e); },
                };
                w.preamble = Some(h.preamble);
                let ghost before = self.peers@;
                self.peers.push(PeerSession { peer: name.clone(), peer_ik: b.ik, session: s });
                assert(peers_view(self.peers@) =~= peers_view(before).push(
                    PeerView { peer: name@, peer_ik: b.ik@, session: s@ },
                ));
                proof {
                    if old(self).wf() {
                        assert forall|i: int, j: int| 0 <= i < j < self.peers@.len() implies self.peers@[i].peer@
                            != self.peers@[j].peer@ by {
                            assert(peers_view(before)[i] == before[i]@);
                        }
                    }
                }
                Ok(w)
            },
        }
    }

    /// Sends `plaintext` to `name`, with random values from the operating
    /// system.
    pub fn send_to(&mut self, name: &String, plaintext: &[u8], bundle: Option<PrekeyBundle>) -> (out:
        Result<WireMessage, Error>)
        ensures
            final(self).keys == old(self).keys,
            final(self).max_skip == old(self).max_skip,
            match out {
                Ok(w) => exists|fresh: FreshView| #[trigger]
                    spec_send_to(
                        old(self).keys,
                        peers_view(old(self).peers@),
                        old(self).max_skip as nat,
                        name@,
                        plaintext@,
                        spec_bundle(bundle),
                        fresh,
                    ) == Ok::<_, Error>((peers_view(final(self).peers@), w@)),
                Err(e) => final(self).peers@ == old(self).peers@ && (e == Error::NoEntropy
                    || exists|fresh: FreshView| #[trigger]
                    spec_send_to(
                        old(self).keys,
                        peers_view(old(self).peers@),
                        old(self).max_skip as nat,
                        name@,
                        plaintext@,
                        spec_bundle(bundle),
                        fresh,
                    ) == Err::<(Seq<PeerView>, WireView), _>(e)),
            },
            old(self).wf() ==> final(self).wf(),
    {
        match Fresh::draw() {
            None => Err(Error::NoEntropy),
            Some(fresh) => self.send_to_with(name, plaintext, bundle, &fresh),
        }
    }

    /// Receives `w` from `name`, with `fresh` as the new ratchet secret
    /// should a ratchet turn. A message that is refused changes nothing: no
    /// session is created or changed, and no one-time prekey leaves the
    /// pool.
    pub fn receive_from_with(&mut self, name: &String, w: &WireMessage, fresh: [u8; 32]) -> (out:
        Result<Vec<u8>, Error>)
        ensures
            final(self).max_skip == old(self).max_skip,
            final(self).keys == (KeyBundle { opks: final(self).keys.opks, ..old(self).keys }),
            match out {
                Ok(pt) => spec_receive_from(
                    old(self).keys,
                    peers_view(old(self).peers@),
                    old(self).max_skip as nat,
                    name@,
                    w@,
                    fresh@,
                ) == Ok::<_, Error>((final(self).keys.opks@, peers_view(final(self).peers@), pt@)),
                Err(e) => spec_receive_from(
                    old(self).keys,
                    peers_view(old(self).peers@),
                    old(self).max_skip as nat,
                    name@,
                    w@,
                    fresh@,
                ) == Err::<(Seq<KeyPair>, Seq<PeerView>, Seq<u8>), _>(e) && final(self).peers@
                    == old(self).peers@ && final(self).keys == old(self).keys,
            },
            old(self).wf() ==> final(self).wf(),
    {
        let empty: [u8; 0] = [];
        proof {
            lemma_find_peer(peers_view(self.peers@), name@, 0);
        }
        match self.find_peer(name) {
            Some(i) => {
                let ghost before = self.peers@;
                match w.preamble {
                    Some(p) => {
                        if !bytes_eq(&p.ik_sender, &self.peers[i].peer_ik) {
                            return Err(Error::PeerIdentityMismatch);
                        }
                    },
                    None => {},
                }
                let out = self.peers[i].session.decrypt_with_key(w, &empty, fresh);
                proof {
                    if out is Ok {
                        assert(peers_view(self.peers@) =~= peers_view(before).update(
                            i as int,
                            PeerView { session: self.peers@[i as int].session@, ..peers_view(before)[i as int] },
                        ));
                    }
                }
                out
            },
            None => {
                let p = match w.preamble {
                    Some(p) => p,
                    None => { return Err(Error::UnknownPeer); },
                };
                let (sk, ad, index) = match respond_to(&self.keys, &p) {
                    Ok(r) => r,
                    Err(e) => { return Err(e); },
                };
                let mut s = Session::init_as_receiver_with(&sk, ad.as_slice(), self.keys.spk, self.max_skip);
                let pt = match s.decrypt_with_key(w, &empty, fresh) {
                    Ok(pt) => pt,
                    Err(e) => { return Err(e); },
                };
                match index {
                    Some(i) => {
                        let _ = self.keys.opks.remove(i);
                    },
                    None => {},
                }
                let ghost before = self.peers@;
                self.peers.push(PeerSession { peer: name.clone(), peer_ik: p.ik_sender, session: s });
                assert(peers_view(self.peers@) =~= peers_view(before).push(
                    PeerView { peer: name@, peer_ik: p.ik_sender@, session: s@ },
                ));
                proof {
                    if old(self).wf() {
                        assert forall|i: int, j: int| 0 <= i < j < self.peers@.len() implies self.peers@[i].peer@
                            != self.peers@[j].peer@ by {
                            assert(peers_view(before)[i] == before[i]@);
                        }
                    }
                }
                Ok(pt)
            },
        }
    }

    /// Receives `w` from `name`, with a ratchet secret from the operating
    /// system should a ratchet turn.
    pub fn receive_from(&mut self, name: &String, w: &WireMessage) -> (out: Result<Vec<u8>, Error>)
        ensures
            final(self).max_skip == old(self).max_skip,
            final(self).keys == (KeyBundle { opks: final(self).keys.opks, ..old(self).keys }),
            match out {
                Ok(pt) => exists|fresh: Seq<u8>|
                    fresh.len() == 32 && #[trigger] spec_receive_from(
                        old(self).keys,
                        peers_view(old(self).peers@),
                        old(self).max_skip as nat,
                        name@,
                        w@,
                        fresh,
                    ) == Ok::<_, Error>(
                        (final(self).keys.opks@, peers_view(final(self).peers@), pt@),
                    ),
                Err(e) => final(self).peers@ == old(self).peers@ && final(self).keys == old(
                    self,
                ).keys && (e == Error::NoEntropy || exists|fresh: Seq<u8>|
                    fresh.len() == 32 && #[trigger] spec_receive_from(
                        old(self).keys,
                        peers_view(old(self).peers@),
                        old(self).max_skip as nat,
                        name@,
                        w@,
                        fresh,
                    ) == Err::<(Seq<KeyPair>, Seq<PeerView>, Seq<u8>), _>(e)),
            },
            old(self).wf() ==> final(self).wf(),
    {
        match random_secret() {
            None => Err(Error::NoEntropy),
            Some(fresh) => {
                let out = self.receive_from_with(name, w, fresh);
                out
            },
        }
    }
}

/// Receiving a message as the server stored it: one that has not the shape
/// of a wire message is refused like one whose header does not open, any
/// other is received from its sender.
pub open spec fn spec_receive_stored(
    keys: KeyBundle,
    peers: Seq<PeerView>,
    max_skip: nat,
    m: StoredMessage,
    fresh: Seq<u8>,
) -> Result<(Seq<KeyPair>, Seq<PeerView>, Seq<u8>), Error> {
    if spec_stored_ok(m) {
        spec_receive_from(keys, peers, max_skip, m.sender@, spec_wire_of(m), fresh)
    } else {
        Err(Error::HeaderDecryptFailed)
    }
}

impl SessionManager {
    /// Receives a message as the server stored it, from the sender that it
    /// names, with `fresh` as the new ratchet secret should a ratchet turn.
    pub fn receive_stored_with(&mut self, m: &StoredMessage, fresh: [u8; 32]) -> (out: Result<
        Vec<u8>,
        Error,
    >)
        ensures
            final(self).max_skip == old(self).max_skip,
            final(self).keys == (KeyBundle { opks: final(self).keys.opks, ..old(self).keys }),
            match out {
                Ok(pt) => spec_receive_stored(
                    old(self).keys,
                    peers_view(old(self).peers@),
                    old(self).max_skip as nat,
                    *m,
                    fresh@,
                ) == Ok::<_, Error>((final(self).keys.opks@, peers_view(final(self).peers@), pt@)),
                Err(e) => spec_receive_stored(
                    old(self).keys,
                    peers_view(old(self).peers@),
                    old(self).max_skip as nat,
                    *m,
                    fresh@,
                ) == Err::<(Seq<KeyPair>, Seq<PeerView>, Seq<u8>), _>(e) && final(self).peers@
                    == old(self).peers@ && final(self).keys == old(self).keys,
            },
            old(self).wf() ==> final(self).wf(),
    {
        match wire_from_stored(m) {
            Some(w) => self.receive_from_with(&m.sender, &w, fresh),
            None => Err(Error::HeaderDecryptFailed),
        }
    }

    /// Receives a message as the server stored it, with a ratchet secret
    /// from the operating system should a ratchet turn.
    pub fn receive_stored(&mut self, m: &StoredMessage) -> (out: Result<Vec<u8>, Error>)
        ensures
            final(self).max_skip == old(self).max_skip,
            final(self).keys == (KeyBundle { opks: final(self).keys.opks, ..old(self).keys }),
            match out {
                Ok(pt) => exists|fresh: Seq<u8>|
                    fresh.len() == 32 && #[trigger] spec_receive_stored(
                        old(self).keys,
                        peers_view(old(self).peers@),
                        old(self).max_skip as nat,
                        *m,
                        fresh,
                    ) == Ok::<_, Error>(
                        (final(self).keys.opks@, peers_view(final(self).peers@), pt@),
                    ),
                Err(e) => final(self).peers@ == old(self).peers@ && final(self).keys == old(
                    self,
                ).keys && (e == Error::NoEntropy || exists|fresh: Seq<u8>|
                    fresh.len() == 32 && #[trigger] spec_receive_stored(
                        old(self).keys,
                        peers_view(old(self).peers@),
                        old(self).max_skip as nat,
                        *m,
                        fresh,
                    ) == Err::<(Seq<KeyPair>, Seq<PeerView>, Seq<u8>), _>(e)),
            },
            old(self).wf() ==> final(self).wf(),
    {
        match random_secret() {
            None => Err(Error::NoEntropy),
            Some(fresh) => {
                let out = self.receive_stored_with(m, fresh);
                out
            },
        }
    }
}

/// The view of an optional prekey bundle.
pub open spec fn spec_bundle(bundle: Option<PrekeyBundle>) -> Option<PrekeyBundleView> {
    match bundle {
        Some(b) => Some(b@),
        None => None,
    }
}

} // verus!
