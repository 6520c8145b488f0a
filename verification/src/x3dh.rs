//! The X3DH handshake: the initiator's half, from the peer's published
//! keys, and the responder's half, from the preamble of the first message.

use vstd::prelude::*;
use crate::bytes::append;
use crate::bundle::{KeyBundle, PrekeyBundle, PrekeyBundleView, spec_find_opk};
use crate::errors::Error;
use crate::primitives::{KeyPair, opt_seq, spec_public_key, spec_dh, spec_dh_agrees, hkdf_sha256_spec, hkdf_sha256, dh, public_key, random_secret};
use crate::wire::{Preamble, PreambleView};

verus! {

/// The info string "X3DH".
pub open spec fn info_x3dh() -> Seq<u8> {
    seq![88u8, 51u8, 68u8, 72u8]
}

/// What the key derivation is fed: thirty-two bytes 0xFF, then the
/// Diffie-Hellman outputs in order.
pub open spec fn spec_x3dh_input(dh1: Seq<u8>, dh2: Seq<u8>, dh3: Seq<u8>, dh4: Option<Seq<u8>>) -> Seq<
    u8,
> {
    let front = Seq::new(32, |i: int| 0xffu8) + dh1 + dh2 + dh3;
    match dh4 {
        Some(d) => front + d,
        None => front,
    }
}

/// The shared secret of a handshake.
pub open spec fn spec_x3dh_secret(dh1: Seq<u8>, dh2: Seq<u8>, dh3: Seq<u8>, dh4: Option<Seq<u8>>) -> Seq<
    u8,
> {
    hkdf_sha256_spec(Seq::new(32, |i: int| 0u8), spec_x3dh_input(dh1, dh2, dh3, dh4), info_x3dh(), 32)
}

/// The secret and associated data from the Diffie-Hellman outputs, or the
/// refusal of an all-zero output.
pub open spec fn spec_x3dh_finish(
    dh1: Option<Seq<u8>>,
    dh2: Option<Seq<u8>>,
    dh3: Option<Seq<u8>>,
    dh4: Option<Option<Seq<u8>>>,
    ad: Seq<u8>,
) -> Result<(Seq<u8>, Seq<u8>), Error> {
    match (dh1, dh2, dh3, dh4) {
        (Some(d1), Some(d2), Some(d3), Some(d4)) => Ok((spec_x3dh_secret(d1, d2, d3, d4), ad)),
        _ => Err(Error::WeakSharedSecret),
    }
}

/// The fourth Diffie-Hellman output: absent without a one-time prekey, and
/// refused (`None`) when it is all zero.
pub open spec fn spec_dh4(secret: Seq<u8>, public: Option<Seq<u8>>) -> Option<Option<Seq<u8>>> {
    match public {
        None => Some(None),
        Some(p) => match spec_dh(secret, p) {
            Some(d) => Some(Some(d)),
            None => None,
        },
    }
}

/// What a handshake gives the initiator.
#[derive(Debug)]
pub struct Handshake {
    /// The shared secret.
    pub sk: [u8; 32],
    /// The associated data: the initiator's identity key, then the
    /// responder's.
    pub ad: Vec<u8>,
    /// What the responder needs to know, sent with the first message.
    pub preamble: Preamble,
}

/// The mathematical view of a handshake result.
pub struct HandshakeView {
    pub sk: Seq<u8>,
    pub ad: Seq<u8>,
    pub preamble: PreambleView,
}

impl View for Handshake {
    type V = HandshakeView;

    open spec fn view(&self) -> HandshakeView {
        HandshakeView { sk: self.sk@, ad: self.ad@, preamble: self.preamble@ }
    }
}

/// The initiator's half: the signature is checked, then
/// DH1 = DH(IK, SPK'), DH2 = DH(EK, IK'), DH3 = DH(EK, SPK') and, with a
/// one-time prekey, DH4 = DH(EK, OPK').
pub open spec fn spec_initiate(
    ik_secret: Seq<u8>,
    ik_public: Seq<u8>,
    ek_secret: Seq<u8>,
    peer: PrekeyBundleView,
) -> Result<HandshakeView, Error> {
    if !peer.signature_valid() {
        Err(Error::SignatureInvalid)
    } else {
        match spec_x3dh_finish(
            spec_dh(ik_secret, peer.spk),
            spec_dh(ek_secret, peer.ik),
            spec_dh(ek_secret, peer.spk),
            spec_dh4(ek_secret, peer.opk),
            ik_public + peer.ik,
        ) {
            Ok((sk, ad)) => Ok(
                HandshakeView {
                    sk,
                    ad,
                    preamble: PreambleView {
                        ik_sender: ik_public,
                        ek_sender: spec_public_key(ek_secret),
                        opk_used: peer.opk,
                    },
                },
            ),
            Err(e) => Err(e),
        }
    }
}

/// The responder's half, with the roles swapped:
/// DH1 = DH(SPK, IK'), DH2 = DH(IK, EK'), DH3 = DH(SPK, EK') and, with a
/// one-time prekey, DH4 = DH(OPK, EK').
pub open spec fn spec_respond(
    ik_secret: Seq<u8>,
    ik_public: Seq<u8>,
    spk_secret: Seq<u8>,
    opk_secret: Option<Seq<u8>>,
    peer_ik: Seq<u8>,
    peer_ek: Seq<u8>,
) -> Result<(Seq<u8>, Seq<u8>), Error> {
    spec_x3dh_finish(
        spec_dh(spk_secret, peer_ik),
        spec_dh(ik_secret, peer_ek),
        spec_dh(spk_secret, peer_ek),
        match opk_secret {
            Some(s) => spec_dh4(s, Some(peer_ek)),
            None => Some(None),
        },
        peer_ik + ik_public,
    )
}

/// Whether the Diffie-Hellman outputs of an initiator agree with those of
/// whoever holds the secrets of the peer's published keys.
pub open spec fn spec_handshake_agrees(ik_secret: Seq<u8>, ek_secret: Seq<u8>, peer: PrekeyBundleView) -> bool {
    &&& spec_dh_agrees(ik_secret, peer.spk)
    &&& spec_dh_agrees(ek_secret, peer.ik)
    &&& spec_dh_agrees(ek_secret, peer.spk)
    &&& peer.opk matches Some(p) ==> spec_dh_agrees(ek_secret, p)
}

/// Both halves of the handshake give the same secret and the same
/// associated data: a responder that holds the secrets of the keys the
/// initiator used derives, from the preamble, what the initiator derived.
pub proof fn lemma_x3dh_agreement(
    ik_secret: Seq<u8>,
    ek_secret: Seq<u8>,
    peer: PrekeyBundleView,
    peer_ik_secret: Seq<u8>,
    peer_spk_secret: Seq<u8>,
    peer_opk_secret: Option<Seq<u8>>,
)
    requires
        spec_handshake_agrees(ik_secret, ek_secret, peer),
        peer_ik_secret.len() == 32,
        peer_spk_secret.len() == 32,
        peer.ik == spec_public_key(peer_ik_secret),
        peer.spk == spec_public_key(peer_spk_secret),
        match (peer.opk, peer_opk_secret) {
            (Some(p), Some(s)) => s.len() == 32 && p == spec_public_key(s),
            (None, None) => true,
            _ => false,
        },
        spec_initiate(ik_secret, spec_public_key(ik_secret), ek_secret, peer) is Ok,
    ensures
        ({
            let h = spec_initiate(ik_secret, spec_public_key(ik_secret), ek_secret, peer)->Ok_0;
            spec_respond(
                peer_ik_secret,
                peer.ik,
                peer_spk_secret,
                peer_opk_secret,
                h.preamble.ik_sender,
                h.preamble.ek_sender,
            ) == Ok::<_, Error>((h.sk, h.ad))
        }),
{
}

/// The shared secret from the Diffie-Hellman outputs.
fn x3dh_secret(dh1: &[u8; 32], dh2: &[u8; 32], dh3: &[u8; 32], dh4: &Option<[u8; 32]>) -> (out: [u8; 32])
    ensures
        out@ == spec_x3dh_secret(dh1@, dh2@, dh3@, opt_seq(*dh4)),
{
    let pad = [0xffu8; 32];
    let salt = [0u8; 32];
    let info: [u8; 4] = [88, 51, 68, 72];
    assert(pad@ =~= Seq::new(32, |i: int| 0xffu8));
    assert(salt@ =~= Seq::new(32, |i: int| 0u8));
    let mut ikm: Vec<u8> = Vec::new();
    append(&mut ikm, &pad);
    append(&mut ikm, dh1);
    append(&mut ikm, dh2);
    append(&mut ikm, dh3);
    match dh4 {
        Some(d) => {
            append(&mut ikm, d);
        },
        None => {},
    }
    hkdf_sha256::<32>(&salt, ikm.as_slice(), &info)
}

/// The fourth Diffie-Hellman output, if a one-time prekey takes part.
fn dh4(secret: &[u8; 32], public: &Option<[u8; 32]>) -> (out: Option<Option<[u8; 32]>>)
    ensures
        match out {
            Some(d) => spec_dh4(secret@, opt_seq(*public)) == Some(opt_seq(d)),
            None => spec_dh4(secret@, opt_seq(*public)) is None,
        },
        public matches Some(p) ==> spec_dh_agrees(secret@, p@),
{
    match public {
        None => Some(None),
        Some(p) => match dh(secret, p) {
            Some(d) => Some(Some(d)),
            None => None,
        },
    }
}

/// The associated data: the initiator's identity key, then the responder's.
fn associated_data(initiator: &[u8; 32], responder: &[u8; 32]) -> (out: Vec<u8>)
    ensures
        out@ == initiator@ + responder@,
{
    let mut out: Vec<u8> = Vec::new();
    append(&mut out, initiator);
    append(&mut out, responder);
    out
}

/// The initiator's half of the handshake with the ephemeral secret
/// `ek_secret`. Whoever holds the peer's secrets agrees on every
/// Diffie-Hellman output.
pub fn initiate_with(identity: &KeyPair, ek_secret: [u8; 32], peer: &PrekeyBundle) -> (out: Result<
    Handshake,
    Error,
>)
    ensures
        match out {
            Ok(h) => spec_initiate(identity.secret@, identity.public@, ek_secret@, peer@) == Ok::<
                _,
                Error,
            >(h@) && spec_handshake_agrees(identity.secret@, ek_secret@, peer@),
            Err(e) => spec_initiate(identity.secret@, identity.public@, ek_secret@, peer@) == Err::<
                HandshakeView,
                _,
            >(e),
        },
{
    if peer.verify().is_err() {
        return Err(Error::SignatureInvalid);
    }
    let d1 = dh(&identity.secret, &peer.spk);
    let d2 = dh(&ek_secret, &peer.ik);
    let d3 = dh(&ek_secret, &peer.spk);
    let d4 = dh4(&ek_secret, &peer.opk);
    match (d1, d2, d3, d4) {
        (Some(d1), Some(d2), Some(d3), Some(d4)) => {
            Ok(
                Handshake {
                    sk: x3dh_secret(&d1, &d2, &d3, &d4),
                    ad: associated_data(&identity.public, &peer.ik),
                    preamble: Preamble {
                        ik_sender: identity.public,
                        ek_sender: public_key(&ek_secret),
                        opk_used: peer.opk,
                    },
                },
            )
        },
        _ => Err(Error::WeakSharedSecret),
    }
}

/// The initiator's half of the handshake, with an ephemeral secret from the
/// operating system.
pub fn initiate(identity: &KeyPair, peer: &PrekeyBundle) -> (out: Result<Handshake, Error>)
    ensures
        match out {
            Ok(h) => exists|ek: Seq<u8>|
                ek.len() == 32 && #[trigger] spec_initiate(
                    identity.secret@,
                    identity.public@,
                    ek,
                    peer@,
                ) == Ok::<_, Error>(h@) && spec_handshake_agrees(identity.secret@, ek, peer@),
            Err(e) => if !peer@.signature_valid() {
                e == Error::SignatureInvalid
            } else {
                e == Error::NoEntropy || e == Error::WeakSharedSecret
            },
        },
{
    if peer.verify().is_err() {
        return Err(Error::SignatureInvalid);
    }
    match random_secret() {
        None => Err(Error::NoEntropy),
        Some(ek) => {
            let out = initiate_with(identity, ek, peer);
            out
        },
    }
}

/// The responder's half of the handshake, from its own secrets and the
/// initiator's identity and ephemeral public keys.
pub fn respond(identity: &KeyPair, spk: &KeyPair, opk: Option<KeyPair>, peer_ik: &[u8; 32], peer_ek: &[u8; 32]) -> (out:
    Result<([u8; 32], Vec<u8>), Error>)
    ensures
        match out {
            Ok((sk, ad)) => spec_respond(
                identity.secret@,
                identity.public@,
                spk.secret@,
                spec_opk_secret(opk),
                peer_ik@,
                peer_ek@,
            ) == Ok::<_, Error>((sk@, ad@)),
            Err(e) => spec_respond(
                identity.secret@,
                identity.public@,
                spk.secret@,
                spec_opk_secret(opk),
                peer_ik@,
                peer_ek@,
            ) == Err::<(Seq<u8>, Seq<u8>), _>(e),
        },
{
    let d1 = dh(&spk.secret, peer_ik);
    let d2 = dh(&identity.secret, peer_ek);
    let d3 = dh(&spk.secret, peer_ek);
    let d4 = match opk {
        Some(k) => dh4(&k.secret, &Some(*peer_ek)),
        None => Some(None),
    };
    match (d1, d2, d3, d4) {
        (Some(d1), Some(d2), Some(d3), Some(d4)) => Ok(
            (x3dh_secret(&d1, &d2, &d3, &d4), associated_data(peer_ik, &identity.public)),
        ),
        _ => Err(Error::WeakSharedSecret),
    }
}

/// The secret half of an optional one-time prekey.
pub open spec fn spec_opk_secret(opk: Option<KeyPair>) -> Option<Seq<u8>> {
    match opk {
        Some(k) => Some(k.secret@),
        None => None,
    }
}

/// The one-time prekey that a preamble names, as the responder's pool holds
/// it: `Ok(None)` when the preamble names none, and `UnknownOneTimeKey` when
/// the pool does not hold the one it names.
pub open spec fn spec_lookup_opk(opks: Seq<KeyPair>, p: PreambleView) -> Result<Option<nat>, Error> {
    match p.opk_used {
        None => Ok(None),
        Some(public) => match spec_find_opk(opks, public, 0) {
            Some(i) => Ok(Some(i)),
            None => Err(Error::UnknownOneTimeKey),
        },
    }
}

/// The responder's half of the handshake on the preamble of a first message:
/// the secret, the associated data and the index of the one-time prekey that
/// was used. The pool is only read; the caller removes the key once the
/// session stands.
pub open spec fn spec_respond_to(bundle: KeyBundle, p: PreambleView) -> Result<
    (Seq<u8>, Seq<u8>, Option<nat>),
    Error,
> {
    match spec_lookup_opk(bundle.opks@, p) {
        Err(e) => Err(e),
        Ok(index) => match spec_respond(
            bundle.identity.secret@,
            bundle.identity.public@,
            bundle.spk.secret@,
            match index {
                Some(i) => Some(bundle.opks@[i as int].secret@),
                None => None,
            },
            p.ik_sender,
            p.ek_sender,
        ) {
            Ok((sk, ad)) => Ok((sk, ad, index)),
            Err(e) => Err(e),
        },
    }
}

/// The responder's half of the handshake on the preamble of a first
/// message. Fails with `UnknownOneTimeKey` exactly when the preamble names a
/// one-time prekey that the pool does not hold.
pub fn respond_to(bundle: &KeyBundle, preamble: &Preamble) -> (out: Result<
    ([u8; 32], Vec<u8>, Option<usize>),
    Error,
>)
    ensures
        match out {
            Ok((sk, ad, index)) => spec_respond_to(*bundle, preamble@) == Ok::<_, Error>(
                (sk@, ad@, spec_index(index)),
            ) && (index matches Some(i) ==> i < bundle.opks@.len()),
            Err(e) => spec_respond_to(*bundle, preamble@) == Err::<
                (Seq<u8>, Seq<u8>, Option<nat>),
                _,
            >(e),
        },
        out matches Err(e) && e == Error::UnknownOneTimeKey <==> spec_lookup_opk(
            bundle.opks@,
            preamble@,
        ) is Err,
{
    let index: Option<usize> = match preamble.opk_used {
        None => None,
        Some(public) => match bundle.find_opk(&public) {
            Some(i) => Some(i),
            None => { return Err(Error::UnknownOneTimeKey); },
        },
    };
    let opk: Option<KeyPair> = match index {
        Some(i) => Some(bundle.opks[i]),
        None => None,
    };
    match respond(&bundle.identity, &bundle.spk, opk, &preamble.ik_sender, &preamble.ek_sender) {
        Ok((sk, ad)) => Ok((sk, ad, index)),
        Err(e) => Err(e),
    }
}

/// An index as a natural number.
pub open spec fn spec_index(index: Option<usize>) -> Option<nat> {
    match index {
        Some(i) => Some(i as nat),
        None => None,
    }
}

} // verus!
