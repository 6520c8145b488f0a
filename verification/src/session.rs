//! The Double Ratchet with header encryption: one session with one peer.
//!
//! A session is created from the secret that the handshake gave, changed by
//! every message sent and received, and left exactly as it was by every
//! message that is refused.

use vstd::prelude::*;
use crate::bytes::{append, to_vec, bytes_eq};
use crate::errors::Error;
use crate::header::{Header, HeaderView, MAX_MESSAGE_NUMBER, spec_open_header, spec_seal_header};
use crate::primitives::{KeyPair, opt_seq, spec_public_key, spec_dh, spec_dh_agrees, spec_kdf_rk, spec_next_chain_key, spec_message_key, spec_body_nonce, spec_header_key_send, spec_header_key_recv, aead_seal_spec, aead_open_spec, aead_seal, aead_open, dh, kdf_rk, kdf_ck, body_nonce, header_keys, random_nonce, random_secret};
use crate::skipped::{SkippedKey, SkippedKeyView, store_view, spec_skip, spec_find_skipped, skip_keys, find_skipped, copy_store, remove_key};
use crate::wire::{WireMessage, WireView};

verus! {

/// How many message keys a session banks unless told otherwise.
pub const DEFAULT_MAX_SKIP: u32 = 1000;

/// The longest plaintext of one message: with its tag the body still fits
/// the length field of the wire format.
pub const MAX_PLAINTEXT_LEN: usize = 0xffff_ffef;

/// The state of a session with one peer.
#[derive(Debug)]
pub struct Session {
    /// Associated data that binds both identity keys.
    pub ad: Vec<u8>,
    /// This side's ratchet key pair.
    pub dh_s: KeyPair,
    /// The peer's ratchet public key.
    pub dh_r: Option<[u8; 32]>,
    /// The root key.
    pub rk: [u8; 32],
    /// The sending chain key.
    pub ck_s: Option<[u8; 32]>,
    /// The receiving chain key.
    pub ck_r: Option<[u8; 32]>,
    /// The sending header key.
    pub hk_s: Option<[u8; 32]>,
    /// The receiving header key.
    pub hk_r: Option<[u8; 32]>,
    /// The sending header key after the next ratchet turn.
    pub nhk_s: [u8; 32],
    /// The receiving header key after the next ratchet turn.
    pub nhk_r: [u8; 32],
    /// Number of the next message to send.
    pub n_s: u32,
    /// Number of the next message to receive.
    pub n_r: u32,
    /// Number of messages in the previous sending chain.
    pub pn: u32,
    /// Keys of messages that were passed over, oldest first.
    pub skipped: Vec<SkippedKey>,
    /// How many keys one message may pass over, and how many are kept.
    pub max_skip: u32,
}

/// The mathematical view of a session.
pub struct SessionView {
    pub ad: Seq<u8>,
    pub dh_s_secret: Seq<u8>,
    pub dh_s_public: Seq<u8>,
    pub dh_r: Option<Seq<u8>>,
    pub rk: Seq<u8>,
    pub ck_s: Option<Seq<u8>>,
    pub ck_r: Option<Seq<u8>>,
    pub hk_s: Option<Seq<u8>>,
    pub hk_r: Option<Seq<u8>>,
    pub nhk_s: Seq<u8>,
    pub nhk_r: Seq<u8>,
    pub n_s: nat,
    pub n_r: nat,
    pub pn: nat,
    pub skipped: Seq<SkippedKeyView>,
    pub max_skip: nat,
}

impl View for Session {
    type V = SessionView;

    open spec fn view(&self) -> SessionView {
        SessionView {
            ad: self.ad@,
            dh_s_secret: self.dh_s.secret@,
            dh_s_public: self.dh_s.public@,
            dh_r: opt_seq(self.dh_r),
            rk: self.rk@,
            ck_s: opt_seq(self.ck_s),
            ck_r: opt_seq(self.ck_r),
            hk_s: opt_seq(self.hk_s),
            hk_r: opt_seq(self.hk_r),
            nhk_s: self.nhk_s@,
            nhk_r: self.nhk_r@,
            n_s: self.n_s as nat,
            n_r: self.n_r as nat,
            pn: self.pn as nat,
            skipped: store_view(self.skipped@),
            max_skip: self.max_skip as nat,
        }
    }
}

/// The initiator's first state, from the handshake secret `sk`, the peer's
/// signed prekey and a fresh ratchet secret.
pub open spec fn spec_init_as_sender(
    sk: Seq<u8>,
    ad: Seq<u8>,
    spk_pub: Seq<u8>,
    dh_secret: Seq<u8>,
    max_skip: nat,
) -> Result<SessionView, Error> {
    match spec_dh(dh_secret, spk_pub) {
        None => Err(Error::WeakSharedSecret),
        Some(d) => {
            let step = spec_kdf_rk(sk, d);
            Ok(
                SessionView {
                    ad,
                    dh_s_secret: dh_secret,
                    dh_s_public: spec_public_key(dh_secret),
                    dh_r: Some(spk_pub),
                    rk: step.0,
                    ck_s: Some(step.1),
                    ck_r: None,
                    hk_s: Some(spec_header_key_send(sk)),
                    hk_r: None,
                    nhk_s: step.2,
                    nhk_r: spec_header_key_recv(sk),
                    n_s: 0,
                    n_r: 0,
                    pn: 0,
                    skipped: Seq::empty(),
                    max_skip,
                },
            )
        },
    }
}

/// The responder's first state, from the handshake secret `sk` and its own
/// signed prekey pair.
pub open spec fn spec_init_as_receiver(
    sk: Seq<u8>,
    ad: Seq<u8>,
    spk_secret: Seq<u8>,
    spk_public: Seq<u8>,
    max_skip: nat,
) -> SessionView {
    SessionView {
        ad,
        dh_s_secret: spk_secret,
        dh_s_public: spk_public,
        dh_r: None,
        rk: sk,
        ck_s: None,
        ck_r: None,
        hk_s: None,
        hk_r: None,
        nhk_s: spec_header_key_recv(sk),
        nhk_r: spec_header_key_send(sk),
        n_s: 0,
        n_r: 0,
        pn: 0,
        skipped: Seq::empty(),
        max_skip,
    }
}

/// What the body of a message is authenticated with: the session's
/// associated data, the caller's, and the encrypted header.
pub open spec fn spec_body_ad(ad: Seq<u8>, extra: Seq<u8>, header_ct: Seq<u8>) -> Seq<u8> {
    ad + extra + header_ct
}

/// Why a session cannot send `plaintext`, if it cannot: it has no sending
/// chain or the chain is used up, or the plaintext is too long.
pub open spec fn spec_encrypt_error(s: SessionView, plaintext: Seq<u8>) -> Option<Error> {
    if s.ck_s is None || s.hk_s is None || s.n_s > MAX_MESSAGE_NUMBER {
        Some(Error::SessionCorrupt)
    } else if plaintext.len() > MAX_PLAINTEXT_LEN {
        Some(Error::MessageTooLong)
    } else {
        None
    }
}

/// Sending `plaintext` with the header nonce `nonce`: the state afterwards
/// and the message.
pub open spec fn spec_encrypt(s: SessionView, plaintext: Seq<u8>, extra: Seq<u8>, nonce: Seq<u8>) -> Result<
    (SessionView, WireView),
    Error,
> {
    match spec_encrypt_error(s, plaintext) {
        Some(e) => Err(e),
        None => {
            let ck = s.ck_s->0;
            let mk = spec_message_key(ck);
            let header = HeaderView { dh: s.dh_s_public, pn: s.pn, n: s.n_s };
            let header_ct = spec_seal_header(s.hk_s->0, nonce, header);
            let body_nonce = spec_body_nonce(mk);
            let body = aead_seal_spec(mk, body_nonce, spec_body_ad(s.ad, extra, header_ct), plaintext);
            Ok(
                (
                    SessionView { ck_s: Some(spec_next_chain_key(ck)), n_s: s.n_s + 1, ..s },
                    WireView { preamble: None, header_ct, header_nonce: nonce, body, body_nonce },
                ),
            )
        },
    }
}

/// `w` carries `plaintext` from the sender state `s`: its header opens under
/// the sender's header key and holds the sender's ratchet key and counters,
/// and its body opens under the sender's message key.
pub open spec fn spec_sealed(s: SessionView, w: WireView, extra: Seq<u8>, plaintext: Seq<u8>) -> bool {
    &&& s.hk_s is Some
    &&& s.ck_s is Some
    &&& s.n_s <= MAX_MESSAGE_NUMBER
    &&& spec_open_header(s.hk_s->0, w.header_nonce, w.header_ct) == Some(
        HeaderView { dh: s.dh_s_public, pn: s.pn, n: s.n_s },
    )
    &&& w.body_nonce == spec_body_nonce(spec_message_key(s.ck_s->0))
    &&& aead_open_spec(
        spec_message_key(s.ck_s->0),
        w.body_nonce,
        spec_body_ad(s.ad, extra, w.header_ct),
        w.body,
    ) == Some(plaintext)
}

/// The header of `w` when receiving it turns the ratchet: no banked key
/// matches, the current header key does not open the header, and the next
/// one does.
pub open spec fn spec_turns_ratchet(s: SessionView, w: WireView) -> Option<HeaderView> {
    if spec_find_skipped(s.skipped, w.header_nonce, w.header_ct, 0) is None && spec_open_current(
        s,
        w,
    ) is None {
        spec_open_header(s.nhk_r, w.header_nonce, w.header_ct)
    } else {
        None
    }
}

/// Opening a body under the message key `mk`: the nonce must be the one
/// that belongs to the key, and the tag must verify.
pub open spec fn spec_open_body(mk: Seq<u8>, nonce: Seq<u8>, body_ad: Seq<u8>, body: Seq<u8>) -> Option<
    Seq<u8>,
> {
    if nonce == spec_body_nonce(mk) {
        aead_open_spec(mk, nonce, body_ad, body)
    } else {
        None
    }
}

/// Receiving the message with header `h` in the chain with header key `hk`,
/// chain key `ck_r` and counter `n_r`: the store after banking the keys that
/// are passed over, the next chain key, and the plaintext.
pub open spec fn spec_receive_in_chain(
    store: Seq<SkippedKeyView>,
    max_skip: nat,
    hk: Seq<u8>,
    ck_r: Option<Seq<u8>>,
    n_r: nat,
    h: HeaderView,
    w: WireView,
    body_ad: Seq<u8>,
) -> Result<(Seq<SkippedKeyView>, Seq<u8>, Seq<u8>), Error> {
    if h.n < n_r {
        Err(Error::MessageKeyExpired)
    } else if h.n - n_r > max_skip {
        Err(Error::TooManySkipped)
    } else {
        match ck_r {
            None => Err(Error::SessionCorrupt),
            Some(ck) => {
                let skipped = spec_skip(store, max_skip, hk, ck, n_r, h.n);
                match spec_open_body(spec_message_key(skipped.1), w.body_nonce, body_ad, w.body) {
                    Some(pt) => Ok((skipped.0, spec_next_chain_key(skipped.1), pt)),
                    None => Err(Error::AuthenticationFailed),
                }
            },
        }
    }
}

/// The header of `w` as the current receiving header key opens it.
pub open spec fn spec_open_current(s: SessionView, w: WireView) -> Option<HeaderView> {
    match s.hk_r {
        Some(hk) => spec_open_header(hk, w.header_nonce, w.header_ct),
        None => None,
    }
}

/// Receiving a message whose header opened under the current receiving
/// header key.
pub open spec fn spec_decrypt_in_chain(s: SessionView, h: HeaderView, w: WireView, body_ad: Seq<u8>) -> Result<
    (SessionView, Seq<u8>),
    Error,
> {
    match s.hk_r {
        None => Err(Error::SessionCorrupt),
        Some(hk) => match spec_receive_in_chain(s.skipped, s.max_skip, hk, s.ck_r, s.n_r, h, w, body_ad) {
            Ok((store, ck, pt)) => Ok(
                (SessionView { skipped: store, ck_r: Some(ck), n_r: h.n + 1, ..s }, pt),
            ),
            Err(e) => Err(e),
        },
    }
}

/// The store after banking what is left of the receiving chain up to the
/// message number `pn`, when a ratchet turn closes that chain.
pub open spec fn spec_close_chain(s: SessionView, pn: nat) -> Result<Seq<SkippedKeyView>, Error> {
    if pn - s.n_r > s.max_skip {
        Err(Error::TooManySkipped)
    } else {
        match (s.hk_r, s.ck_r) {
            (Some(hk), Some(ck)) => Ok(spec_skip(s.skipped, s.max_skip, hk, ck, s.n_r, pn).0),
            (None, None) => Ok(s.skipped),
            _ => Err(Error::SessionCorrupt),
        }
    }
}

/// Receiving a message whose header opened under the next receiving header
/// key: the ratchet turns, with `fresh` as this side's new ratchet secret,
/// and the message is received in the new chain.
pub open spec fn spec_decrypt_ratchet(
    s: SessionView,
    h: HeaderView,
    w: WireView,
    body_ad: Seq<u8>,
    fresh: Seq<u8>,
) -> Result<(SessionView, Seq<u8>), Error> {
    match spec_close_chain(s, h.pn) {
        Err(e) => Err(e),
        Ok(store) => match (spec_dh(s.dh_s_secret, h.dh), spec_dh(fresh, h.dh)) {
            (Some(d1), Some(d2)) => {
                let recv = spec_kdf_rk(s.rk, d1);
                let send = spec_kdf_rk(recv.0, d2);
                match spec_receive_in_chain(store, s.max_skip, s.nhk_r, Some(recv.1), 0, h, w, body_ad) {
                    Err(e) => Err(e),
                    Ok((store1, ck, pt)) => Ok(
                        (
                            SessionView {
                                ad: s.ad,
                                dh_s_secret: fresh,
                                dh_s_public: spec_public_key(fresh),
                                dh_r: Some(h.dh),
                                rk: send.0,
                                ck_s: Some(send.1),
                                ck_r: Some(ck),
                                hk_s: Some(s.nhk_s),
                                hk_r: Some(s.nhk_r),
                                nhk_s: send.2,
                                nhk_r: recv.2,
                                n_s: 0,
                                n_r: h.n + 1,
                                pn: s.n_s,
                                skipped: store1,
                                max_skip: s.max_skip,
                            },
                            pt,
                        ),
                    ),
                }
            },
            _ => Err(Error::WeakSharedSecret),
        },
    }
}

/// Receiving `w`: by a banked key, else in the current chain, else by a
/// ratchet turn; the state afterwards and the plaintext, or the reason why
/// the message is refused.
pub open spec fn spec_decrypt(s: SessionView, w: WireView, extra: Seq<u8>, fresh: Seq<u8>) -> Result<
    (SessionView, Seq<u8>),
    Error,
> {
    let body_ad = spec_body_ad(s.ad, extra, w.header_ct);
    match spec_find_skipped(s.skipped, w.header_nonce, w.header_ct, 0) {
        Some(i) => match spec_open_body(s.skipped[i as int].mk, w.body_nonce, body_ad, w.body) {
            Some(pt) => Ok((SessionView { skipped: s.skipped.remove(i as int), ..s }, pt)),
            None => Err(Error::AuthenticationFailed),
        },
        None => match spec_open_current(s, w) {
            Some(h) => spec_decrypt_in_chain(s, h, w, body_ad),
            None => match spec_open_header(s.nhk_r, w.header_nonce, w.header_ct) {
                Some(h) => spec_decrypt_ratchet(s, h, w, body_ad, fresh),
                None => Err(Error::HeaderDecryptFailed),
            },
        },
    }
}

/// Puts together what a body is authenticated with.
fn body_ad(ad: &[u8], extra: &[u8], header_ct: &[u8]) -> (out: Vec<u8>)
    ensures
        out@ == spec_body_ad(ad@, extra@, header_ct@),
{
    let mut out: Vec<u8> = Vec::new();
    append(&mut out, ad);
    append(&mut out, extra);
    append(&mut out, header_ct);
    out
}

/// Opens a message body under `mk`.
fn open_body(mk: &[u8; 32], nonce: &[u8; 12], body_ad: &[u8], body: &[u8]) -> (out: Option<Vec<u8>>)
    ensures
        match out {
            Some(pt) => spec_open_body(mk@, nonce@, body_ad@, body@) == Some(pt@),
            None => spec_open_body(mk@, nonce@, body_ad@, body@) is None,
        },
{
    let expected = body_nonce(mk);
    if bytes_eq(nonce, &expected) {
        aead_open(mk, nonce, body_ad, body)
    } else {
        None
    }
}

/// Receives a message in one chain, on a working copy of the store.
fn receive_in_chain(
    store: Vec<SkippedKey>,
    max_skip: u32,
    hk: &[u8; 32],
    ck_r: Option<[u8; 32]>,
    n_r: u32,
    h: &Header,
    w: &WireMessage,
    body_ad: &[u8],
) -> (out: Result<(Vec<SkippedKey>, [u8; 32], Vec<u8>), Error>)
    ensures
        match out {
            Ok((store1, ck, pt)) => spec_receive_in_chain(
                store_view(store@),
                max_skip as nat,
                hk@,
                opt_seq(ck_r),
                n_r as nat,
                h@,
                w@,
                body_ad@,
            ) == Ok::<_, Error>((store_view(store1@), ck@, pt@)),
            Err(e) => spec_receive_in_chain(
                store_view(store@),
                max_skip as nat,
                hk@,
                opt_seq(ck_r),
                n_r as nat,
                h@,
                w@,
                body_ad@,
            ) == Err::<(Seq<SkippedKeyView>, Seq<u8>, Seq<u8>), _>(e),
        },
{
    if h.n < n_r {
        return Err(Error::MessageKeyExpired);
    }
    if h.n - n_r > max_skip {
        return Err(Error::TooManySkipped);
    }
    match ck_r {
        None => Err(Error::SessionCorrupt),
        Some(ck) => {
            let mut store = store;
            let ck1 = skip_keys(&mut store, max_skip as usize, hk, &ck, n_r, h.n);
            let (next, mk) = kdf_ck(&ck1);
            match open_body(&mk, &w.body_nonce, body_ad, w.body.as_slice()) {
                Some(pt) => Ok((store, next, pt)),
                None => Err(Error::AuthenticationFailed),
            }
        },
    }
}

impl Session {
    /// The initiator's first state with the ratchet secret `dh_secret`.
    /// Fails only when the Diffie-Hellman output is all zero.
    pub fn init_as_sender_with(
        sk: &[u8; 32],
        ad: &[u8],
        spk_pub: &[u8; 32],
        dh_secret: [u8; 32],
        max_skip: u32,
    ) -> (out: Result<Session, Error>)
        ensures
            match out {
                Ok(s) => spec_init_as_sender(sk@, ad@, spk_pub@, dh_secret@, max_skip as nat) == Ok::<
                    _,
                    Error,
                >(s@),
                Err(e) => spec_init_as_sender(sk@, ad@, spk_pub@, dh_secret@, max_skip as nat)
                    == Err::<SessionView, _>(e),
            },
            spec_dh_agrees(dh_secret@, spk_pub@),
    {
        match dh(&dh_secret, spk_pub) {
            None => Err(Error::WeakSharedSecret),
            Some(d) => {
                let (rk, ck, nhk) = kdf_rk(sk, &d);
                let (hk_send, hk_recv) = header_keys(sk);
                let s = Session {
                    ad: to_vec(ad),
                    dh_s: KeyPair::from_secret(dh_secret),
                    dh_r: Some(*spk_pub),
                    rk,
                    ck_s: Some(ck),
                    ck_r: None,
                    hk_s: Some(hk_send),
                    hk_r: None,
                    nhk_s: nhk,
                    nhk_r: hk_recv,
                    n_s: 0,
                    n_r: 0,
                    pn: 0,
                    skipped: Vec::new(),
                    max_skip,
                };
                assert(store_view(s.skipped@) =~= Seq::<SkippedKeyView>::empty());
                Ok(s)
            },
        }
    }

    /// The initiator's first state, with a ratchet secret from the operating
    /// system and the default limit on skipped keys.
    pub fn init_as_sender(sk: &[u8; 32], ad: &[u8], spk_pub: &[u8; 32]) -> (out: Result<
        Session,
        Error,
    >)
        ensures
            match out {
                Ok(s) => spec_init_as_sender(
                    sk@,
                    ad@,
                    spk_pub@,
                    s@.dh_s_secret,
                    DEFAULT_MAX_SKIP as nat,
                ) == Ok::<_, Error>(s@) && s@.dh_s_secret.len() == 32 && spec_dh_agrees(
                    s@.dh_s_secret,
                    spk_pub@,
                ),
                Err(e) => e == Error::NoEntropy || e == Error::WeakSharedSecret,
            },
    {
        match random_secret() {
            None => Err(Error::NoEntropy),
            Some(secret) => Session::init_as_sender_with(sk, ad, spk_pub, secret, DEFAULT_MAX_SKIP),
        }
    }

    /// The responder's first state: its signed prekey pair is its first
    /// ratchet pair, and the first message received turns the ratchet.
    pub fn init_as_receiver_with(sk: &[u8; 32], ad: &[u8], spk: KeyPair, max_skip: u32) -> (out:
        Session)
        ensures
            out@ == spec_init_as_receiver(sk@, ad@, spk.secret@, spk.public@, max_skip as nat),
    {
        let (hk_send, hk_recv) = header_keys(sk);
        let s = Session {
            ad: to_vec(ad),
            dh_s: spk,
            dh_r: None,
            rk: *sk,
            ck_s: None,
            ck_r: None,
            hk_s: None,
            hk_r: None,
            nhk_s: hk_recv,
            nhk_r: hk_send,
            n_s: 0,
            n_r: 0,
            pn: 0,
            skipped: Vec::new(),
            max_skip,
        };
        assert(store_view(s.skipped@) =~= Seq::<SkippedKeyView>::empty());
        s
    }

    /// The responder's first state with the default limit on skipped keys.
    pub fn init_as_receiver(sk: &[u8; 32], ad: &[u8], spk: KeyPair) -> (out: Session)
        ensures
            out@ == spec_init_as_receiver(
                sk@,
                ad@,
                spk.secret@,
                spk.public@,
                DEFAULT_MAX_SKIP as nat,
            ),
    {
        Session::init_as_receiver_with(sk, ad, spk, DEFAULT_MAX_SKIP)
    }

    /// Encrypts `plaintext` as the next message of the sending chain, with
    /// `nonce` for the header. A session that cannot send is left as it was.
    pub fn encrypt_with_nonce(&mut self, plaintext: &[u8], extra_ad: &[u8], nonce: [u8; 12]) -> (out:
        Result<WireMessage, Error>)
        ensures
            match out {
                Ok(w) => spec_encrypt(old(self)@, plaintext@, extra_ad@, nonce@) == Ok::<_, Error>(
                    (final(self)@, w@),
                ),
                Err(e) => spec_encrypt(old(self)@, plaintext@, extra_ad@, nonce@) == Err::<
                    (SessionView, WireView),
                    _,
                >(e) && *final(self) == *old(self),
            },
            out matches Ok(w) ==> spec_sealed(old(self)@, w@, extra_ad@, plaintext@),
    {
        let (ck, hk) = match (self.ck_s, self.hk_s) {
            (Some(ck), Some(hk)) => (ck, hk),
            _ => { return Err(Error::SessionCorrupt); },
        };
        if self.n_s > MAX_MESSAGE_NUMBER {
            return Err(Error::SessionCorrupt);
        }
        if plaintext.len() > MAX_PLAINTEXT_LEN {
            return Err(Error::MessageTooLong);
        }
        let (next, mk) = kdf_ck(&ck);
        let header = Header { dh: self.dh_s.public, pn: self.pn, n: self.n_s };
        let header_ct = header.seal(&hk, &nonce);
        let bnonce = body_nonce(&mk);
        let full_ad = body_ad(self.ad.as_slice(), extra_ad, header_ct.as_slice());
        let body = aead_seal(&mk, &bnonce, full_ad.as_slice(), plaintext);
        self.ck_s = Some(next);
        self.n_s = self.n_s + 1;
        Ok(WireMessage { preamble: None, header_ct, header_nonce: nonce, body, body_nonce: bnonce })
    }

    /// Encrypts `plaintext` with a header nonce from the operating system.
    /// What the session cannot send is refused before a nonce is asked for.
    pub fn encrypt(&mut self, plaintext: &[u8], extra_ad: &[u8]) -> (out: Result<WireMessage, Error>)
        ensures
            match out {
                Ok(w) => spec_encrypt(old(self)@, plaintext@, extra_ad@, w@.header_nonce) == Ok::<
                    _,
                    Error,
                >((final(self)@, w@)),
                Err(e) => *final(self) == *old(self) && match spec_encrypt_error(
                    old(self)@,
                    plaintext@,
                ) {
                    Some(reason) => e == reason,
                    None => e == Error::NoEntropy,
                },
            },
            out matches Ok(w) ==> spec_sealed(old(self)@, w@, extra_ad@, plaintext@),
    {
        if self.ck_s.is_none() || self.hk_s.is_none() || self.n_s > MAX_MESSAGE_NUMBER {
            return Err(Error::SessionCorrupt);
        }
        if plaintext.len() > MAX_PLAINTEXT_LEN {
            return Err(Error::MessageTooLong);
        }
        match random_nonce() {
            None => Err(Error::NoEntropy),
            Some(nonce) => self.encrypt_with_nonce(plaintext, extra_ad, nonce),
        }
    }

    /// Decrypts `w`, with `fresh` as the new ratchet secret should the
    /// ratchet turn. A message that is refused leaves the session exactly as
    /// it was.
    pub fn decrypt_with_key(&mut self, w: &WireMessage, extra_ad: &[u8], fresh: [u8; 32]) -> (out:
        Result<Vec<u8>, Error>)
        ensures
            match out {
                Ok(pt) => spec_decrypt(old(self)@, w@, extra_ad@, fresh@) == Ok::<_, Error>(
                    (final(self)@, pt@),
                ),
                Err(e) => spec_decrypt(old(self)@, w@, extra_ad@, fresh@) == Err::<
                    (SessionView, Seq<u8>),
                    _,
                >(e) && *final(self) == *old(self),
            },
            spec_turns_ratchet(old(self)@, w@) matches Some(h) ==> spec_dh_agrees(fresh@, h.dh),
    {
        let full_ad = body_ad(self.ad.as_slice(), extra_ad, w.header_ct.as_slice());
        match find_skipped(&self.skipped, &w.header_nonce, w.header_ct.as_slice()) {
            Some(i) => {
                let e = self.skipped[i];
                match open_body(&e.mk, &w.body_nonce, full_ad.as_slice(), w.body.as_slice()) {
                    Some(pt) => {
                        remove_key(&mut self.skipped, i);
                        Ok(pt)
                    },
                    None => Err(Error::AuthenticationFailed),
                }
            },
            None => {
                let current = match self.hk_r {
                    Some(hk) => Header::open(&hk, &w.header_nonce, w.header_ct.as_slice()),
                    None => None,
                };
                match current {
                    Some(h) => self.decrypt_in_chain(&h, w, full_ad.as_slice()),
                    None => match Header::open(&self.nhk_r, &w.header_nonce, w.header_ct.as_slice()) {
                        Some(h) => self.decrypt_ratchet(&h, w, full_ad.as_slice(), fresh),
                        None => Err(Error::HeaderDecryptFailed),
                    },
                }
            },
        }
    }

    /// Decrypts `w`, with a ratchet secret from the operating system should
    /// the ratchet turn.
    pub fn decrypt(&mut self, w: &WireMessage, extra_ad: &[u8]) -> (out: Result<Vec<u8>, Error>)
        ensures
            match out {
                Ok(pt) => exists|fresh: Seq<u8>|
                    fresh.len() == 32 && #[trigger] spec_decrypt(old(self)@, w@, extra_ad@, fresh)
                        == Ok::<_, Error>((final(self)@, pt@)) && (spec_turns_ratchet(
                        old(self)@,
                        w@,
                    ) matches Some(h) ==> spec_dh_agrees(fresh, h.dh)),
                Err(e) => *final(self) == *old(self) && (e == Error::NoEntropy || exists|
                    fresh: Seq<u8>,
                |
                    fresh.len() == 32 && #[trigger] spec_decrypt(old(self)@, w@, extra_ad@, fresh)
                        == Err::<(SessionView, Seq<u8>), _>(e)),
            },
    {
        match random_secret() {
            None => Err(Error::NoEntropy),
            Some(fresh) => {
                let out = self.decrypt_with_key(w, extra_ad, fresh);
                out
            },
        }
    }

    /// Receives a message whose header opened under the current receiving
    /// header key.
    fn decrypt_in_chain(&mut self, h: &Header, w: &WireMessage, body_ad: &[u8]) -> (out: Result<
        Vec<u8>,
        Error,
    >)
        requires
            h.n <= MAX_MESSAGE_NUMBER,
        ensures
            match out {
                Ok(pt) => spec_decrypt_in_chain(old(self)@, h@, w@, body_ad@) == Ok::<_, Error>(
                    (final(self)@, pt@),
                ),
                Err(e) => spec_decrypt_in_chain(old(self)@, h@, w@, body_ad@) == Err::<
                    (SessionView, Seq<u8>),
                    _,
                >(e) && *final(self) == *old(self),
            },
    {
        let hk = match self.hk_r {
            Some(hk) => hk,
            None => { return Err(Error::SessionCorrupt); },
        };
        let store = copy_store(&self.skipped);
        match receive_in_chain(store, self.max_skip, &hk, self.ck_r, self.n_r, h, w, body_ad) {
            Ok((store1, ck, pt)) => {
                self.skipped = store1;
                self.ck_r = Some(ck);
                self.n_r = h.n + 1;
                Ok(pt)
            },
            Err(e) => Err(e),
        }
    }

    /// The store after closing the receiving chain at message number `pn`.
    fn close_chain(&self, pn: u32) -> (out: Result<Vec<SkippedKey>, Error>)
        ensures
            match out {
                Ok(store) => spec_close_chain(self@, pn as nat) == Ok::<_, Error>(
                    store_view(store@),
                ),
                Err(e) => spec_close_chain(self@, pn as nat) == Err::<Seq<SkippedKeyView>, _>(e),
            },
    {
        if pn > self.n_r && pn - self.n_r > self.max_skip {
            return Err(Error::TooManySkipped);
        }
        match (self.hk_r, self.ck_r) {
            (Some(hk), Some(ck)) => {
                let mut store = copy_store(&self.skipped);
                let _ = skip_keys(&mut store, self.max_skip as usize, &hk, &ck, self.n_r, pn);
                Ok(store)
            },
            (None, None) => Ok(copy_store(&self.skipped)),
            _ => Err(Error::SessionCorrupt),
        }
    }

    /// Receives a message whose header opened under the next receiving
    /// header key: turns the ratchet and receives in the new chain.
    fn decrypt_ratchet(&mut self, h: &Header, w: &WireMessage, body_ad: &[u8], fresh: [u8; 32]) -> (out:
        Result<Vec<u8>, Error>)
        requires
            h.n <= MAX_MESSAGE_NUMBER,
        ensures
            match out {
                Ok(pt) => spec_decrypt_ratchet(old(self)@, h@, w@, body_ad@, fresh@) == Ok::<
                    _,
                    Error,
                >((final(self)@, pt@)),
                Err(e) => spec_decrypt_ratchet(old(self)@, h@, w@, body_ad@, fresh@) == Err::<
                    (SessionView, Seq<u8>),
                    _,
                >(e) && *final(self) == *old(self),
            },
            spec_dh_agrees(fresh@, h@.dh),
    {
        let shared = (dh(&self.dh_s.secret, &h.dh), dh(&fresh, &h.dh));
        let store = match self.close_chain(h.pn) {
            Ok(store) => store,
            Err(e) => { return Err(e); },
        };
        let (d1, d2) = match shared {
            (Some(d1), Some(d2)) => (d1, d2),
            _ => { return Err(Error::WeakSharedSecret); },
        };
        let (rk1, ck_r, nhk_r) = kdf_rk(&self.rk, &d1);
        let (rk2, ck_s, nhk_s) = kdf_rk(&rk1, &d2);
        let hk_r = self.nhk_r;
        match receive_in_chain(store, self.max_skip, &hk_r, Some(ck_r), 0, h, w, body_ad) {
            Err(e) => Err(e),
            Ok((store1, ck, pt)) => {
                self.pn = self.n_s;
                self.n_s = 0;
                self.n_r = h.n + 1;
                self.hk_s = Some(self.nhk_s);
                self.hk_r = Some(hk_r);
                self.dh_r = Some(h.dh);
                self.dh_s = KeyPair::from_secret(fresh);
                self.rk = rk2;
                self.ck_s = Some(ck_s);
                self.ck_r = Some(ck);
                self.nhk_s = nhk_s;
                self.nhk_r = nhk_r;
                self.skipped = store1;
                Ok(pt)
            },
        }
    }
}

} // verus!
