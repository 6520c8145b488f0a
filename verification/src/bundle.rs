//! The key bundle of one user: identity key, signing key, signed prekey
//! with its signature, and the pool of one-time prekeys.

use vstd::prelude::*;
use crate::bytes::bytes_eq;
use crate::errors::Error;
use crate::primitives::{KeyPair, opt_seq, ed25519_public_spec, ed25519_sign_spec, ed25519_verify_spec, ed25519_public, ed25519_sign, ed25519_verify, random_secret};

verus! {

/// Everything a user holds: the secret halves stay here, the public halves
/// are published.
#[derive(Debug)]
pub struct KeyBundle {
    /// The identity key pair.
    pub identity: KeyPair,
    /// The Ed25519 seed that signs the signed prekey.
    pub signing_key: [u8; 32],
    /// The Ed25519 key that verifies those signatures.
    pub verifying_key: [u8; 32],
    /// The signed prekey pair.
    pub spk: KeyPair,
    /// The signature over the public half of the signed prekey.
    pub spk_signature: [u8; 64],
    /// The one-time prekeys that no handshake has used yet.
    pub opks: Vec<KeyPair>,
    /// Whether the bundle was handed out for publication.
    pub published: bool,
}

/// The public halves of a bundle, as they are published.
#[derive(Debug)]
pub struct PublishedKeys {
    pub ik: [u8; 32],
    pub spk: [u8; 32],
    pub spk_signature: [u8; 64],
    pub verifying_key: [u8; 32],
    pub opks: Vec<[u8; 32]>,
}

/// What the directory hands to an initiator: the peer's public keys and at
/// most one of its one-time prekeys.
#[derive(Clone, Copy, Debug)]
pub struct PrekeyBundle {
    pub ik: [u8; 32],
    pub spk: [u8; 32],
    pub spk_signature: [u8; 64],
    pub verifying_key: [u8; 32],
    pub opk: Option<[u8; 32]>,
}

/// The mathematical view of a prekey bundle.
pub struct PrekeyBundleView {
    pub ik: Seq<u8>,
    pub spk: Seq<u8>,
    pub spk_signature: Seq<u8>,
    pub verifying_key: Seq<u8>,
    pub opk: Option<Seq<u8>>,
}

impl View for PrekeyBundle {
    type V = PrekeyBundleView;

    open spec fn view(&self) -> PrekeyBundleView {
        PrekeyBundleView {
            ik: self.ik@,
            spk: self.spk@,
            spk_signature: self.spk_signature@,
            verifying_key: self.verifying_key@,
            opk: opt_seq(self.opk),
        }
    }
}

impl PrekeyBundleView {
    /// Whether the signature over the signed prekey verifies.
    pub open spec fn signature_valid(self) -> bool {
        ed25519_verify_spec(self.verifying_key, self.spk, self.spk_signature)
    }
}

impl PrekeyBundle {
    /// Checks the signature over the signed prekey.
    pub fn verify(&self) -> (out: Result<(), Error>)
        ensures
            out is Ok <==> self@.signature_valid(),
            out matches Err(e) ==> e == Error::SignatureInvalid,
    {
        if ed25519_verify(&self.verifying_key, &self.spk, &self.spk_signature) {
            Ok(())
        } else {
            Err(Error::SignatureInvalid)
        }
    }
}

/// The public halves of a pool, in order.
pub open spec fn spec_publics(opks: Seq<KeyPair>) -> Seq<Seq<u8>> {
    opks.map_values(|k: KeyPair| k.public@)
}

/// The views of a list of public keys.
pub open spec fn spec_key_views(keys: Seq<[u8; 32]>) -> Seq<Seq<u8>> {
    keys.map_values(|k: [u8; 32]| k@)
}

/// The index of the first one-time prekey at or after `from` whose public
/// half is `public`.
pub open spec fn spec_find_opk(opks: Seq<KeyPair>, public: Seq<u8>, from: nat) -> Option<nat>
    decreases opks.len() - from,
{
    if from >= opks.len() {
        None
    } else if opks[from as int].public@ == public {
        Some(from)
    } else {
        spec_find_opk(opks, public, from + 1)
    }
}

/// A found index lies in the pool and holds the key; nothing is found only
/// when no key of the pool has that public half.
pub proof fn lemma_find_opk(opks: Seq<KeyPair>, public: Seq<u8>, from: nat)
    ensures
        match spec_find_opk(opks, public, from) {
            Some(i) => from <= i < opks.len() && opks[i as int].public@ == public && forall|j: int|
                from <= j < i ==> opks[j].public@ != public,
            None => forall|j: int| from <= j < opks.len() ==> opks[j].public@ != public,
        },
    decreases opks.len() - from,
{
    if from < opks.len() && opks[from as int].public@ != public {
        lemma_find_opk(opks, public, from + 1);
    }
}

impl KeyBundle {
    /// The keys are consistent: each public half belongs to its secret half,
    /// the verifying key to the signing key, and the signature is the one
    /// the signing key gives for the signed prekey.
    pub open spec fn wf(&self) -> bool {
        &&& self.identity.wf()
        &&& self.spk.wf()
        &&& self.verifying_key@ == ed25519_public_spec(self.signing_key@)
        &&& self.spk_signature@ == ed25519_sign_spec(self.signing_key@, self.spk.public@)
        &&& forall|i: int| 0 <= i < self.opks@.len() ==> (#[trigger] self.opks@[i]).wf()
    }

    /// Whether the signature over the signed prekey verifies.
    pub open spec fn signature_valid(&self) -> bool {
        ed25519_verify_spec(self.verifying_key@, self.spk.public@, self.spk_signature@)
    }

    /// The key pairs that belong to `secrets`, in order.
    fn pairs_from(secrets: &Vec<[u8; 32]>) -> (out: Vec<KeyPair>)
        ensures
            out@.len() == secrets@.len(),
            forall|i: int|
                0 <= i < out@.len() ==> (#[trigger] out@[i]).secret == secrets@[i] && out@[i].wf(),
    {
        let mut out: Vec<KeyPair> = Vec::new();
        let mut i: usize = 0;
        while i < secrets.len()
            invariant
                i <= secrets@.len(),
                out@.len() == i,
                forall|j: int|
                    0 <= j < i ==> (#[trigger] out@[j]).secret == secrets@[j] && out@[j].wf(),
            decreases secrets@.len() - i,
        {
            out.push(KeyPair::from_secret(secrets[i]));
            i += 1;
        }
        out
    }

    /// The bundle that belongs to the given secrets. The signed prekey is
    /// signed with `signing_key`, and the signature verifies.
    pub fn from_secrets(
        ik_secret: [u8; 32],
        signing_key: [u8; 32],
        spk_secret: [u8; 32],
        opk_secrets: &Vec<[u8; 32]>,
    ) -> (out: KeyBundle)
        ensures
            out.wf(),
            out.signature_valid(),
            out.identity.secret == ik_secret,
            out.signing_key == signing_key,
            out.spk.secret == spk_secret,
            out.opks@.len() == opk_secrets@.len(),
            forall|i: int| 0 <= i < out.opks@.len() ==> (#[trigger] out.opks@[i]).secret == opk_secrets@[i],
            !out.published,
    {
        let spk = KeyPair::from_secret(spk_secret);
        KeyBundle {
            identity: KeyPair::from_secret(ik_secret),
            signing_key,
            verifying_key: ed25519_public(&signing_key),
            spk,
            spk_signature: ed25519_sign(&signing_key, &spk.public),
            opks: KeyBundle::pairs_from(opk_secrets),
            published: false,
        }
    }

    /// `count` secrets from the operating system; where none is asked for, none is drawn.
    fn random_secrets(count: usize) -> (out: Option<Vec<[u8; 32]>>)
        ensures
            out matches Some(v) ==> v@.len() == count,
            count == 0 ==> out is Some,
    {
        let mut out: Vec<[u8; 32]> = Vec::new();
        let mut i: usize = 0;
        while i < count
            invariant
                i <= count,
                out@.len() == i,
            decreases count - i,
        {
            match random_secret() {
                Some(s) => out.push(s),
                None => { return None; },
            }
            i += 1;
        }
        Some(out)
    }

    /// A new bundle with `opk_count` one-time prekeys, all secrets drawn
    /// from the operating system.
    pub fn generate(opk_count: usize) -> (out: Result<KeyBundle, Error>)
        ensures
            match out {
                Ok(b) => b.wf() && b.signature_valid() && b.opks@.len() == opk_count
                    && !b.published,
                Err(e) => e == Error::NoEntropy,
            },
    {
        let ik = random_secret();
        let signing = random_secret();
        let spk = random_secret();
        let opks = KeyBundle::random_secrets(opk_count);
        match (ik, signing, spk, opks) {
            (Some(ik), Some(signing), Some(spk), Some(opks)) => Ok(
                KeyBundle::from_secrets(ik, signing, spk, &opks),
            ),
            _ => Err(Error::NoEntropy),
        }
    }

    /// A bundle put together from stored parts. Refused when the signature
    /// over the signed prekey does not verify.
    pub fn from_parts(
        identity: KeyPair,
        signing_key: [u8; 32],
        verifying_key: [u8; 32],
        spk: KeyPair,
        spk_signature: [u8; 64],
        opks: Vec<KeyPair>,
        published: bool,
    ) -> (out: Result<KeyBundle, Error>)
        ensures
            match out {
                Ok(b) => b.signature_valid() && b.identity == identity && b.signing_key
                    == signing_key && b.verifying_key == verifying_key && b.spk == spk
                    && b.spk_signature == spk_signature && b.opks == opks && b.published
                    == published,
                Err(e) => e == Error::SignatureInvalid && !ed25519_verify_spec(
                    verifying_key@,
                    spk.public@,
                    spk_signature@,
                ),
            },
    {
        if !ed25519_verify(&verifying_key, &spk.public, &spk_signature) {
            return Err(Error::SignatureInvalid);
        }
        Ok(KeyBundle { identity, signing_key, verifying_key, spk, spk_signature, opks, published })
    }

    /// The public halves of the one-time prekeys, in order.
    pub fn opk_publics(&self) -> (out: Vec<[u8; 32]>)
        ensures
            spec_key_views(out@) == spec_publics(self.opks@),
    {
        let mut out: Vec<[u8; 32]> = Vec::new();
        let mut i: usize = 0;
        while i < self.opks.len()
            invariant
                i <= self.opks@.len(),
                out@.len() == i,
                forall|j: int| 0 <= j < i ==> out@[j] == self.opks@[j].public,
            decreases self.opks@.len() - i,
        {
            out.push(self.opks[i].public);
            i += 1;
        }
        out
    }

    /// Hands out the public halves for publication, once: a second call is
    /// refused, since an identity key is published only once.
    pub fn publish(&mut self) -> (out: Result<PublishedKeys, Error>)
        ensures
            match out {
                Ok(p) => {
                    &&& !old(self).published
                    &&& *final(self) == (KeyBundle { published: true, ..*old(self) })
                    &&& p.ik == old(self).identity.public
                    &&& p.spk == old(self).spk.public
                    &&& p.spk_signature == old(self).spk_signature
                    &&& p.verifying_key == old(self).verifying_key
                    &&& spec_key_views(p.opks@) == spec_publics(old(self).opks@)
                },
                Err(e) => e == Error::AlreadyPublished && old(self).published && *final(self)
                    == *old(self),
            },
    {
        if self.published {
            return Err(Error::AlreadyPublished);
        }
        let keys = PublishedKeys {
            ik: self.identity.public,
            spk: self.spk.public,
            spk_signature: self.spk_signature,
            verifying_key: self.verifying_key,
            opks: self.opk_publics(),
        };
        self.published = true;
        Ok(keys)
    }

    /// Replaces the signed prekey by the pair of `secret`, signed anew.
    pub fn rotate_spk_with(&mut self, secret: [u8; 32])
        ensures
            final(self).spk.secret == secret,
            final(self).spk.wf(),
            final(self).spk_signature@ == ed25519_sign_spec(
                old(self).signing_key@,
                final(self).spk.public@,
            ),
            *final(self) == (KeyBundle {
                spk: final(self).spk,
                spk_signature: final(self).spk_signature,
                ..*old(self)
            }),
            old(self).wf() ==> final(self).wf() && final(self).signature_valid(),
    {
        let spk = KeyPair::from_secret(secret);
        self.spk_signature = ed25519_sign(&self.signing_key, &spk.public);
        self.spk = spk;
    }

    /// Adds the one-time prekeys of `secrets` to the pool and returns their
    /// public halves, for publication.
    pub fn supply_opks_with(&mut self, secrets: &Vec<[u8; 32]>) -> (out: Vec<[u8; 32]>)
        ensures
            final(self).opks@.len() == old(self).opks@.len() + secrets@.len(),
            final(self).opks@.subrange(0, old(self).opks@.len() as int) == old(self).opks@,
            out@.len() == secrets@.len(),
            forall|i: int|
                0 <= i < secrets@.len() ==> {
                    let k = #[trigger] final(self).opks@[old(self).opks@.len() + i];
                    k.secret == secrets@[i] && k.wf() && out@[i] == k.public
                },
            *final(self) == (KeyBundle { opks: final(self).opks, ..*old(self) }),
            old(self).wf() ==> final(self).wf(),
    {
        let mut out: Vec<[u8; 32]> = Vec::new();
        let ghost before = self.opks@;
        let mut i: usize = 0;
        while i < secrets.len()
            invariant
                i <= secrets@.len(),
                out@.len() == i,
                self.opks@.len() == before.len() + i,
                self.opks@.subrange(0, before.len() as int) == before,
                forall|j: int|
                    0 <= j < i ==> {
                        let k = #[trigger] self.opks@[before.len() + j];
                        k.secret == secrets@[j] && k.wf() && out@[j] == k.public
                    },
                *self == (KeyBundle { opks: self.opks, ..*old(self) }),
            decreases secrets@.len() - i,
        {
            let k = KeyPair::from_secret(secrets[i]);
            let ghost prev = self.opks@;
            self.opks.push(k);
            out.push(k.public);
            assert(self.opks@.subrange(0, before.len() as int) =~= prev.subrange(
                0,
                before.len() as int,
            ));
            i += 1;
        }
        proof {
            if old(self).wf() {
                assert forall|j: int| 0 <= j < self.opks@.len() implies (#[trigger] self.opks@[j]).wf() by {
                    if j < before.len() {
                        assert(self.opks@[j] == self.opks@.subrange(0, before.len() as int)[j]);
                    } else {
                        assert(self.opks@[before.len() + (j - before.len())].wf());
                    }
                }
            }
        }
        out
    }

    /// Replaces the signed prekey by a pair with a secret from the operating
    /// system, signed anew. Nothing changes when it gives no random bytes.
    pub fn rotate_spk(&mut self) -> (out: Result<(), Error>)
        ensures
            match out {
                Ok(_) => final(self).spk.wf() && final(self).spk_signature@ == ed25519_sign_spec(
                    old(self).signing_key@,
                    final(self).spk.public@,
                ) && *final(self) == (KeyBundle {
                    spk: final(self).spk,
                    spk_signature: final(self).spk_signature,
                    ..*old(self)
                }) && (old(self).wf() ==> final(self).wf() && final(self).signature_valid()),
                Err(e) => e == Error::NoEntropy && *final(self) == *old(self),
            },
    {
        match random_secret() {
            Some(secret) => {
                self.rotate_spk_with(secret);
                Ok(())
            },
            None => Err(Error::NoEntropy),
        }
    }

    /// Adds `count` one-time prekeys with secrets from the operating system
    /// and returns their public halves, for publication. Nothing changes
    /// when it gives no random bytes. Adding none always succeeds.
    pub fn supply_opks(&mut self, count: usize) -> (out: Result<Vec<[u8; 32]>, Error>)
        ensures
            count == 0 ==> out is Ok,
            match out {
                Ok(publics) => {
                    &&& publics@.len() == count
                    &&& final(self).opks@.len() == old(self).opks@.len() + count
                    &&& final(self).opks@.subrange(0, old(self).opks@.len() as int) == old(
                        self,
                    ).opks@
                    &&& forall|i: int|
                        0 <= i < count ==> {
                            let k = #[trigger] final(self).opks@[old(self).opks@.len() + i];
                            k.wf() && publics@[i] == k.public
                        }
                    &&& *final(self) == (KeyBundle { opks: final(self).opks, ..*old(self) })
                    &&& old(self).wf() ==> final(self).wf()
                },
                Err(e) => e == Error::NoEntropy && *final(self) == *old(self),
            },
    {
        match KeyBundle::random_secrets(count) {
            Some(secrets) => Ok(self.supply_opks_with(&secrets)),
            None => Err(Error::NoEntropy),
        }
    }

    /// The index of the one-time prekey with the public half `public`.
    pub fn find_opk(&self, public: &[u8; 32]) -> (out: Option<usize>)
        ensures
            match out {
                Some(i) => spec_find_opk(self.opks@, public@, 0) == Some(i as nat) && i
                    < self.opks@.len(),
                None => spec_find_opk(self.opks@, public@, 0) is None,
            },
    {
        let mut i: usize = 0;
        while i < self.opks.len()
            invariant
                i <= self.opks@.len(),
                spec_find_opk(self.opks@, public@, i as nat) == spec_find_opk(
                    self.opks@,
                    public@,
                    0,
                ),
            decreases self.opks@.len() - i,
        {
            if bytes_eq(&self.opks[i].public, public) {
                return Some(i);
            }
            i += 1;
        }
        None
    }

    /// Takes the one-time prekey with the public half `public` out of the
    /// pool: the first such key leaves, the others stay in order. Fails with
    /// `NotFound`, and changes nothing, when the pool holds no such key.
    pub fn take(&mut self, public: &[u8; 32]) -> (out: Result<KeyPair, Error>)
        ensures
            match out {
                Ok(k) => {
                    &&& spec_find_opk(old(self).opks@, public@, 0) matches Some(i)
                    &&& k == old(self).opks@[i as int]
                    &&& k.public@ == public@
                    &&& final(self).opks@ == old(self).opks@.remove(i as int)
                    &&& *final(self) == (KeyBundle { opks: final(self).opks, ..*old(self) })
                },
                Err(e) => e == Error::NotFound && spec_find_opk(old(self).opks@, public@, 0)
                    is None && *final(self) == *old(self),
            },
    {
        match self.find_opk(public) {
            Some(i) => {
                proof {
                    lemma_find_opk(self.opks@, public@, 0);
                }
                Ok(self.opks.remove(i))
            },
            None => Err(Error::NotFound),
        }
    }
}

} // verus!
