//! The fixed algorithm suite: X25519, Ed25519, HKDF-SHA256, HMAC-SHA256 and
//! ChaCha20-Poly1305, and the key-derivation functions built from them.

use vstd::prelude::*;
use crate::bytes::{is_all_zero, all_zero, take};

verus! {

/// The X25519 function of RFC 7748 on a 32-byte scalar and a 32-byte
/// u-coordinate.
pub uninterp spec fn x25519_spec(scalar: Seq<u8>, point: Seq<u8>) -> Seq<u8>;

/// HKDF-SHA256 (extract, then expand to `len` bytes).
pub uninterp spec fn hkdf_sha256_spec(salt: Seq<u8>, ikm: Seq<u8>, info: Seq<u8>, len: nat) -> Seq<u8>;

/// HMAC-SHA256 of `data` under `key`.
pub uninterp spec fn hmac_sha256_spec(key: Seq<u8>, data: Seq<u8>) -> Seq<u8>;

/// ChaCha20-Poly1305 encryption: the ciphertext followed by the 16-byte tag.
pub uninterp spec fn aead_seal_spec(key: Seq<u8>, nonce: Seq<u8>, ad: Seq<u8>, msg: Seq<u8>) -> Seq<u8>;

/// ChaCha20-Poly1305 decryption: the plaintext, or `None` when the tag does
/// not verify.
pub uninterp spec fn aead_open_spec(key: Seq<u8>, nonce: Seq<u8>, ad: Seq<u8>, ct: Seq<u8>) -> Option<Seq<u8>>;

/// The Ed25519 verifying key that belongs to a 32-byte signing seed.
pub uninterp spec fn ed25519_public_spec(seed: Seq<u8>) -> Seq<u8>;

/// The Ed25519 signature of `msg` under a 32-byte signing seed.
pub uninterp spec fn ed25519_sign_spec(seed: Seq<u8>, msg: Seq<u8>) -> Seq<u8>;

/// Whether `sig` is a valid Ed25519 signature of `msg` under `key`.
pub uninterp spec fn ed25519_verify_spec(key: Seq<u8>, msg: Seq<u8>, sig: Seq<u8>) -> bool;

/// Length of the authentication tag that sealing appends.
pub const TAG_LEN: usize = 16;

/// Longest message that `aead_seal` is asked to encrypt.
pub const MAX_SEAL_LEN: usize = 0xffff_ffff;

/// The u-coordinate 9 of the Curve25519 base point, little-endian.
pub open spec fn basepoint() -> Seq<u8> {
    Seq::new(32, |i: int| if i == 0 { 9u8 } else { 0u8 })
}

/// The public half of an X25519 secret.
pub open spec fn spec_public_key(secret: Seq<u8>) -> Seq<u8> {
    x25519_spec(secret, basepoint())
}

/// Calls `x25519_dalek::x25519`, the byte-oriented X25519 function. The
/// second clause is the Diffie-Hellman property: if `point` is the public
/// half of some other secret, that secret applied to this scalar's public
/// half gives the same output.
#[verifier::external_body]
pub(crate) fn x25519(scalar: &[u8; 32], point: &[u8; 32]) -> (out: [u8; 32])
    ensures
        out@ == x25519_spec(scalar@, point@),
        forall|other: Seq<u8>|
            other.len() == 32 && point@ == spec_public_key(other) ==> out@ == #[trigger] x25519_spec(
                other,
                spec_public_key(scalar@),
            ),
{
    x25519_dalek::x25519(*scalar, *point)
}

/// Calls `Hkdf::<Sha256>::new` and `expand` of the hkdf crate, which fails
/// only for outputs longer than 255 hash blocks.
#[verifier::external_body]
pub(crate) fn hkdf_sha256<const N: usize>(salt: &[u8], ikm: &[u8], info: &[u8]) -> (out: [u8; N])
    requires
        N <= 8160,
    ensures
        out@ == hkdf_sha256_spec(salt@, ikm@, info@, N as nat),
{
    let mut okm = [0u8; N];
    let _ = hkdf::Hkdf::<sha2::Sha256>::new(Some(salt), ikm).expand(info, &mut okm);
    okm
}

/// Calls `Hmac::<Sha256>` of the hmac crate (`new_from_slice`, `update`,
/// `finalize`), which takes keys of every length.
#[verifier::external_body]
pub(crate) fn hmac_sha256(key: &[u8], data: &[u8]) -> (out: [u8; 32])
    ensures
        out@ == hmac_sha256_spec(key@, data@),
{
    let mut out = [0u8; 32];
    if let Ok(mut mac) = <hmac::Hmac<sha2::Sha256> as hmac::Mac>::new_from_slice(key) {
        hmac::Mac::update(&mut mac, data);
        out.copy_from_slice(&hmac::Mac::finalize(mac).into_bytes());
    }
    out
}

/// Calls `ChaCha20Poly1305::encrypt` (trait `Aead`). The tag is appended to
/// the ciphertext, and what was sealed opens again under the same key, nonce
/// and associated data.
#[verifier::external_body]
pub(crate) fn aead_seal(key: &[u8; 32], nonce: &[u8; 12], ad: &[u8], msg: &[u8]) -> (out: Vec<u8>)
    requires
        msg@.len() <= MAX_SEAL_LEN,
    ensures
        out@ == aead_seal_spec(key@, nonce@, ad@, msg@),
        out@.len() == msg@.len() + TAG_LEN,
        aead_open_spec(key@, nonce@, ad@, out@) == Some(msg@),
{
    let cipher = <chacha20poly1305::ChaCha20Poly1305 as chacha20poly1305::KeyInit>::new(key.into());
    let payload = chacha20poly1305::aead::Payload { msg, aad: ad };
    match chacha20poly1305::aead::Aead::encrypt(&cipher, nonce.into(), payload) {
        Ok(ct) => ct,
        Err(_) => Vec::new(),
    }
}

/// Calls `ChaCha20Poly1305::decrypt` (trait `Aead`), which returns the
/// plaintext, 16 bytes shorter than its input, or an error when the input is
/// shorter than a tag or the tag does not verify.
#[verifier::external_body]
pub(crate) fn aead_open(key: &[u8; 32], nonce: &[u8; 12], ad: &[u8], ct: &[u8]) -> (out: Option<Vec<u8>>)
    ensures
        match out {
            Some(msg) => aead_open_spec(key@, nonce@, ad@, ct@) == Some(msg@) && msg@.len() + TAG_LEN
                == ct@.len(),
            None => aead_open_spec(key@, nonce@, ad@, ct@) is None,
        },
{
    let cipher = <chacha20poly1305::ChaCha20Poly1305 as chacha20poly1305::KeyInit>::new(key.into());
    let payload = chacha20poly1305::aead::Payload { msg: ct, aad: ad };
    match chacha20poly1305::aead::Aead::decrypt(&cipher, nonce.into(), payload) {
        Ok(msg) => Some(msg),
        Err(_) => None,
    }
}

/// Calls `SigningKey::from_bytes` and `verifying_key` of ed25519-dalek.
#[verifier::external_body]
pub(crate) fn ed25519_public(seed: &[u8; 32]) -> (out: [u8; 32])
    ensures
        out@ == ed25519_public_spec(seed@),
{
    ed25519_dalek::SigningKey::from_bytes(seed).verifying_key().to_bytes()
}

/// Calls `SigningKey::sign` (trait `Signer`) of ed25519-dalek. Signing is
/// deterministic, and the signature verifies under the seed's own verifying
/// key.
#[verifier::external_body]
pub(crate) fn ed25519_sign(seed: &[u8; 32], msg: &[u8]) -> (out: [u8; 64])
    ensures
        out@ == ed25519_sign_spec(seed@, msg@),
        ed25519_verify_spec(ed25519_public_spec(seed@), msg@, out@),
{
    ed25519_dalek::Signer::sign(&ed25519_dalek::SigningKey::from_bytes(seed), msg).to_bytes()
}

/// Calls `VerifyingKey::from_bytes` and `verify` (trait `Verifier`) of
/// ed25519-dalek; a key that does not decode verifies nothing.
#[verifier::external_body]
pub(crate) fn ed25519_verify(key: &[u8; 32], msg: &[u8], sig: &[u8; 64]) -> (out: bool)
    ensures
        out == ed25519_verify_spec(key@, msg@, sig@),
{
    match ed25519_dalek::VerifyingKey::from_bytes(key) {
        Ok(vk) => ed25519_dalek::Verifier::verify(&vk, msg, &ed25519_dalek::Signature::from_bytes(sig)).is_ok(),
        Err(_) => false,
    }
}

/// Calls `OsRng::try_fill_bytes` of rand_core: bytes from the operating
/// system, or `None` when it has none to give. Nothing is known of the bytes.
#[verifier::external_body]
pub(crate) fn os_random<const N: usize>() -> (out: Option<[u8; N]>)
{
    let mut buf = [0u8; N];
    match rand_core::RngCore::try_fill_bytes(&mut rand_core::OsRng, &mut buf) {
        Ok(()) => Some(buf),
        Err(_) => None,
    }
}

/// The view of an optional 32-byte key.
pub open spec fn opt_seq(key: Option<[u8; 32]>) -> Option<Seq<u8>> {
    match key {
        Some(k) => Some(k@),
        None => None,
    }
}

/// The info string "RootKey-HE".
pub open spec fn info_root() -> Seq<u8> {
    seq![82u8, 111u8, 111u8, 116u8, 75u8, 101u8, 121u8, 45u8, 72u8, 69u8]
}

/// The info string "Nonce".
pub open spec fn info_nonce() -> Seq<u8> {
    seq![78u8, 111u8, 110u8, 99u8, 101u8]
}

/// The info string "HK-send".
pub open spec fn info_hk_send() -> Seq<u8> {
    seq![72u8, 75u8, 45u8, 115u8, 101u8, 110u8, 100u8]
}

/// The info string "HK-recv".
pub open spec fn info_hk_recv() -> Seq<u8> {
    seq![72u8, 75u8, 45u8, 114u8, 101u8, 99u8, 118u8]
}

/// A Diffie-Hellman output, rejected when it is all zero.
pub open spec fn spec_dh(secret: Seq<u8>, public: Seq<u8>) -> Option<Seq<u8>> {
    let out = x25519_spec(secret, public);
    if is_all_zero(out) {
        None
    } else {
        Some(out)
    }
}

/// The holder of the secret of `public` computes, from the public half of
/// `secret`, the Diffie-Hellman output that `secret` computes from `public`.
pub open spec fn spec_dh_agrees(secret: Seq<u8>, public: Seq<u8>) -> bool {
    forall|other: Seq<u8>|
        other.len() == 32 && public == spec_public_key(other) ==> #[trigger] spec_dh(
            other,
            spec_public_key(secret),
        ) == spec_dh(secret, public)
}

/// The chain key of message number `n` in the chain that starts with `c0`.
pub open spec fn spec_chain_key(c0: Seq<u8>, n: nat) -> Seq<u8>
    decreases n,
{
    if n == 0 {
        c0
    } else {
        spec_next_chain_key(spec_chain_key(c0, (n - 1) as nat))
    }
}

/// The root-key step: new root key, chain key and next header key, the three
/// thirds of 96 bytes of HKDF output with the root key as salt.
pub open spec fn spec_kdf_rk(rk: Seq<u8>, dh_out: Seq<u8>) -> (Seq<u8>, Seq<u8>, Seq<u8>) {
    let okm = hkdf_sha256_spec(rk, dh_out, info_root(), 96);
    (okm.subrange(0, 32), okm.subrange(32, 64), okm.subrange(64, 96))
}

/// The chain key that follows `ck`.
pub open spec fn spec_next_chain_key(ck: Seq<u8>) -> Seq<u8> {
    hmac_sha256_spec(ck, seq![2u8])
}

/// The message key that `ck` yields.
pub open spec fn spec_message_key(ck: Seq<u8>) -> Seq<u8> {
    hmac_sha256_spec(ck, seq![1u8])
}

/// The body nonce that belongs to a message key.
pub open spec fn spec_body_nonce(mk: Seq<u8>) -> Seq<u8> {
    hkdf_sha256_spec(Seq::empty(), mk, info_nonce(), 12)
}

/// The header key of the initiator's first sending chain.
pub open spec fn spec_header_key_send(sk: Seq<u8>) -> Seq<u8> {
    hkdf_sha256_spec(Seq::empty(), sk, info_hk_send(), 32)
}

/// The next header key of the initiator's receiving side.
pub open spec fn spec_header_key_recv(sk: Seq<u8>) -> Seq<u8> {
    hkdf_sha256_spec(Seq::empty(), sk, info_hk_recv(), 32)
}

/// An X25519 key pair.
#[derive(Clone, Copy, Debug)]
pub struct KeyPair {
    pub secret: [u8; 32],
    pub public: [u8; 32],
}

impl KeyPair {
    /// The public half is the one that belongs to the secret half.
    pub open spec fn wf(&self) -> bool {
        self.public@ == spec_public_key(self.secret@)
    }

    /// The pair that belongs to `secret`.
    pub fn from_secret(secret: [u8; 32]) -> (pair: KeyPair)
        ensures
            pair.secret == secret,
            pair.wf(),
    {
        KeyPair { secret, public: public_key(&secret) }
    }

    /// A pair with a secret drawn from the operating system, or `None` when
    /// it gives no random bytes.
    pub fn generate() -> (pair: Option<KeyPair>)
        ensures
            pair matches Some(p) ==> p.wf(),
    {
        match os_random::<32>() {
            Some(secret) => Some(KeyPair::from_secret(secret)),
            None => None,
        }
    }
}

/// Twelve bytes from the operating system, for a header nonce.
pub(crate) fn random_nonce() -> (out: Option<[u8; 12]>)
{
    os_random::<12>()
}

/// Thirty-two bytes from the operating system, for a secret.
pub(crate) fn random_secret() -> (out: Option<[u8; 32]>)
{
    os_random::<32>()
}

/// The public half of `secret`.
pub fn public_key(secret: &[u8; 32]) -> (out: [u8; 32])
    ensures
        out@ == spec_public_key(secret@),
{
    let mut base = [0u8; 32];
    base[0] = 9;
    assert(base@ =~= basepoint());
    x25519(secret, &base)
}

/// Diffie-Hellman of `secret` with `public`; `None` when the output is all
/// zero. Whoever holds the secret of `public` computes the same value from
/// this secret's public half.
pub fn dh(secret: &[u8; 32], public: &[u8; 32]) -> (out: Option<[u8; 32]>)
    ensures
        opt_seq(out) == spec_dh(secret@, public@),
        spec_dh_agrees(secret@, public@),
{
    let shared = x25519(secret, public);
    if all_zero(&shared) {
        None
    } else {
        Some(shared)
    }
}

/// The root-key step on `rk` and a Diffie-Hellman output.
pub fn kdf_rk(rk: &[u8; 32], dh_out: &[u8; 32]) -> (out: ([u8; 32], [u8; 32], [u8; 32]))
    ensures
        out.0@ == spec_kdf_rk(rk@, dh_out@).0,
        out.1@ == spec_kdf_rk(rk@, dh_out@).1,
        out.2@ == spec_kdf_rk(rk@, dh_out@).2,
{
    let info: [u8; 10] = [82, 111, 111, 116, 75, 101, 121, 45, 72, 69];
    let okm = hkdf_sha256::<96>(rk, dh_out, &info);
    (take::<32>(&okm, 0), take::<32>(&okm, 32), take::<32>(&okm, 64))
}

/// The chain-key step: the next chain key and the message key.
pub fn kdf_ck(ck: &[u8; 32]) -> (out: ([u8; 32], [u8; 32]))
    ensures
        out.0@ == spec_next_chain_key(ck@),
        out.1@ == spec_message_key(ck@),
{
    let two: [u8; 1] = [2];
    let one: [u8; 1] = [1];
    assert(two@ =~= seq![2u8]);
    assert(one@ =~= seq![1u8]);
    (hmac_sha256(ck, &two), hmac_sha256(ck, &one))
}

/// The body nonce that belongs to the message key `mk`.
pub fn body_nonce(mk: &[u8; 32]) -> (out: [u8; 12])
    ensures
        out@ == spec_body_nonce(mk@),
{
    let salt: [u8; 0] = [];
    let info: [u8; 5] = [78, 111, 110, 99, 101];
    assert(salt@ =~= Seq::<u8>::empty());
    hkdf_sha256::<12>(&salt, mk, &info)
}

/// The two header keys that both sides derive from the handshake secret:
/// the initiator's first sending header key, and the next header key of the
/// initiator's receiving side.
pub fn header_keys(sk: &[u8; 32]) -> (out: ([u8; 32], [u8; 32]))
    ensures
        out.0@ == spec_header_key_send(sk@),
        out.1@ == spec_header_key_recv(sk@),
{
    let salt: [u8; 0] = [];
    let send: [u8; 7] = [72, 75, 45, 115, 101, 110, 100];
    let recv: [u8; 7] = [72, 75, 45, 114, 101, 99, 118];
    assert(salt@ =~= Seq::<u8>::empty());
    (hkdf_sha256::<32>(&salt, sk, &send), hkdf_sha256::<32>(&salt, sk, &recv))
}

} // verus!
