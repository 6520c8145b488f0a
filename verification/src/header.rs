//! The message header: the sender's ratchet public key and the two message
//! counters, as forty bytes, and its encryption under a header key.

use vstd::prelude::*;
use crate::bytes::{spec_u32_be, spec_u32_bytes, lemma_u32_round_trip, lemma_u32_bytes_of_value, take, append, put_u32, get_u32};
use crate::primitives::{aead_seal_spec, aead_open_spec, aead_seal, aead_open};

verus! {

/// Length of an encoded header.
pub const HEADER_LEN: usize = 40;

/// Length of an encrypted header: the encoding and the tag.
pub const SEALED_HEADER_LEN: usize = 56;

/// The largest message number a chain uses; the counter that follows it is
/// the last value of `u32`.
pub const MAX_MESSAGE_NUMBER: u32 = 0xffff_fffe;

/// A message header.
#[derive(Clone, Copy, Debug)]
pub struct Header {
    /// The sender's current ratchet public key.
    pub dh: [u8; 32],
    /// Number of messages in the sender's previous sending chain.
    pub pn: u32,
    /// Number of this message in the sender's current chain.
    pub n: u32,
}

/// The mathematical view of a header.
pub struct HeaderView {
    pub dh: Seq<u8>,
    pub pn: nat,
    pub n: nat,
}

impl View for Header {
    type V = HeaderView;

    open spec fn view(&self) -> HeaderView {
        HeaderView { dh: self.dh@, pn: self.pn as nat, n: self.n as nat }
    }
}

impl HeaderView {
    /// What `Header` can hold and a chain can number.
    pub open spec fn wf(self) -> bool {
        &&& self.dh.len() == 32
        &&& self.pn <= u32::MAX
        &&& self.n <= MAX_MESSAGE_NUMBER
    }
}

/// The forty bytes of a header: key, then the two counters big-endian.
pub open spec fn spec_encode_header(h: HeaderView) -> Seq<u8> {
    h.dh + spec_u32_bytes(h.pn as int) + spec_u32_bytes(h.n as int)
}

/// The header that forty bytes hold, if they hold one.
pub open spec fn spec_decode_header(bytes: Seq<u8>) -> Option<HeaderView> {
    if bytes.len() == HEADER_LEN && spec_u32_be(bytes.subrange(36, 40)) <= MAX_MESSAGE_NUMBER {
        Some(
            HeaderView {
                dh: bytes.subrange(0, 32),
                pn: spec_u32_be(bytes.subrange(32, 36)) as nat,
                n: spec_u32_be(bytes.subrange(36, 40)) as nat,
            },
        )
    } else {
        None
    }
}

/// Decoding a header's encoding gives the header back.
pub proof fn lemma_header_round_trip(h: HeaderView)
    requires
        h.wf(),
    ensures
        spec_encode_header(h).len() == HEADER_LEN,
        spec_decode_header(spec_encode_header(h)) == Some(h),
{
    let b = spec_encode_header(h);
    lemma_u32_round_trip(h.pn as int);
    lemma_u32_round_trip(h.n as int);
    assert(b.subrange(0, 32) =~= h.dh);
}

/// A decoded header is well formed, and encodes to the bytes it came from.
pub proof fn lemma_header_decode_inverse(bytes: Seq<u8>)
    requires
        spec_decode_header(bytes) is Some,
    ensures
        spec_decode_header(bytes)->0.wf(),
        spec_encode_header(spec_decode_header(bytes)->0) == bytes,
{
    lemma_u32_bytes_of_value(bytes.subrange(32, 36));
    lemma_u32_bytes_of_value(bytes.subrange(36, 40));
}

/// A header encrypted under `hk` with `nonce`, without associated data.
pub open spec fn spec_seal_header(hk: Seq<u8>, nonce: Seq<u8>, h: HeaderView) -> Seq<u8> {
    aead_seal_spec(hk, nonce, Seq::empty(), spec_encode_header(h))
}

/// The header that `ct` holds under `hk`, if it opens and decodes.
pub open spec fn spec_open_header(hk: Seq<u8>, nonce: Seq<u8>, ct: Seq<u8>) -> Option<HeaderView> {
    match aead_open_spec(hk, nonce, Seq::empty(), ct) {
        Some(bytes) => spec_decode_header(bytes),
        None => None,
    }
}

impl Header {
    /// The forty bytes of the header.
    pub fn encode(&self) -> (out: Vec<u8>)
        ensures
            out@ == spec_encode_header(self@),
            out@.len() == HEADER_LEN,
    {
        let mut out: Vec<u8> = Vec::new();
        append(&mut out, &self.dh);
        put_u32(&mut out, self.pn);
        put_u32(&mut out, self.n);
        out
    }

    /// The header that `bytes` hold; `None` unless they are forty bytes with
    /// a message number that a chain can use.
    pub fn decode(bytes: &[u8]) -> (out: Option<Header>)
        ensures
            match out {
                Some(h) => spec_decode_header(bytes@) == Some(h@) && h.n <= MAX_MESSAGE_NUMBER,
                None => spec_decode_header(bytes@) is None,
            },
    {
        if bytes.len() != HEADER_LEN {
            return None;
        }
        let n = get_u32(bytes, 36);
        if n > MAX_MESSAGE_NUMBER {
            return None;
        }
        let pn = get_u32(bytes, 32);
        let dh = take::<32>(bytes, 0);
        Some(Header { dh, pn, n })
    }

    /// Encrypts the header under `hk` with `nonce`. The result opens again
    /// under the same key and nonce when the message number is one a chain
    /// can use.
    pub fn seal(&self, hk: &[u8; 32], nonce: &[u8; 12]) -> (out: Vec<u8>)
        ensures
            out@ == spec_seal_header(hk@, nonce@, self@),
            out@.len() == SEALED_HEADER_LEN,
            self.n <= MAX_MESSAGE_NUMBER ==> spec_open_header(hk@, nonce@, out@) == Some(self@),
    {
        let plain = self.encode();
        let empty: [u8; 0] = [];
        assert(empty@ =~= Seq::<u8>::empty());
        proof {
            if self.n <= MAX_MESSAGE_NUMBER {
                lemma_header_round_trip(self@);
            }
        }
        aead_seal(hk, nonce, &empty, plain.as_slice())
    }

    /// Opens an encrypted header under `hk`.
    pub fn open(hk: &[u8; 32], nonce: &[u8; 12], ct: &[u8]) -> (out: Option<Header>)
        ensures
            match out {
                Some(h) => spec_open_header(hk@, nonce@, ct@) == Some(h@) && h.n
                    <= MAX_MESSAGE_NUMBER,
                None => spec_open_header(hk@, nonce@, ct@) is None,
            },
    {
        let empty: [u8; 0] = [];
        assert(empty@ =~= Seq::<u8>::empty());
        match aead_open(hk, nonce, &empty, ct) {
            Some(plain) => Header::decode(plain.as_slice()),
            None => None,
        }
    }
}

} // verus!
