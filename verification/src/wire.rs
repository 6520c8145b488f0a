//! The wire message and its binary format.
//!
//! ```text
//! u8  version (1)
//! u8  flags (bit 0: a preamble follows)
//! preamble, if flagged:
//!     u8 ik_sender[32], u8 ek_sender[32], u8 opk_used_present (0 or 1),
//!     u8 opk_used[32] if present
//! u16 header_ct_len, header_ct
//! u8  header_nonce[12]
//! u32 body_len, body
//! u8  body_nonce[12]
//! ```
//!
//! Lengths are big-endian. Nothing may follow the body nonce.

use vstd::prelude::*;
use crate::bytes::{spec_u16_be, spec_u16_bytes, spec_u32_be, spec_u32_bytes, lemma_u16_round_trip, lemma_u32_round_trip, lemma_u16_bytes_of_value, lemma_u32_bytes_of_value, take, append, to_vec, put_u16, put_u32, get_u16, get_u32};
use crate::primitives::opt_seq;

verus! {

/// The format version that this library writes and reads.
pub const WIRE_VERSION: u8 = 1;

/// What the initiator tells the responder about the handshake.
#[derive(Clone, Copy, Debug)]
pub struct Preamble {
    /// The initiator's identity public key.
    pub ik_sender: [u8; 32],
    /// The initiator's ephemeral public key.
    pub ek_sender: [u8; 32],
    /// The responder's one-time prekey that the initiator used, if any.
    pub opk_used: Option<[u8; 32]>,
}

/// The mathematical view of a preamble.
pub struct PreambleView {
    pub ik_sender: Seq<u8>,
    pub ek_sender: Seq<u8>,
    pub opk_used: Option<Seq<u8>>,
}

impl View for Preamble {
    type V = PreambleView;

    open spec fn view(&self) -> PreambleView {
        PreambleView {
            ik_sender: self.ik_sender@,
            ek_sender: self.ek_sender@,
            opk_used: opt_seq(self.opk_used),
        }
    }
}

impl PreambleView {
    /// Every key has 32 bytes.
    pub open spec fn wf(self) -> bool {
        &&& self.ik_sender.len() == 32
        &&& self.ek_sender.len() == 32
        &&& self.opk_used matches Some(k) ==> k.len() == 32
    }
}

/// The view of an optional preamble.
pub open spec fn opt_preamble(p: Option<Preamble>) -> Option<PreambleView> {
    match p {
        Some(p) => Some(p@),
        None => None,
    }
}

/// An encrypted message as it travels.
#[derive(Debug)]
pub struct WireMessage {
    /// The handshake preamble, on the first message of a new session.
    pub preamble: Option<Preamble>,
    /// The encrypted header.
    pub header_ct: Vec<u8>,
    /// The nonce the header was encrypted with.
    pub header_nonce: [u8; 12],
    /// The encrypted body.
    pub body: Vec<u8>,
    /// The nonce the body was encrypted with.
    pub body_nonce: [u8; 12],
}

/// The mathematical view of a wire message.
pub struct WireView {
    pub preamble: Option<PreambleView>,
    pub header_ct: Seq<u8>,
    pub header_nonce: Seq<u8>,
    pub body: Seq<u8>,
    pub body_nonce: Seq<u8>,
}

impl View for WireMessage {
    type V = WireView;

    open spec fn view(&self) -> WireView {
        WireView {
            preamble: opt_preamble(self.preamble),
            header_ct: self.header_ct@,
            header_nonce: self.header_nonce@,
            body: self.body@,
            body_nonce: self.body_nonce@,
        }
    }
}

impl WireView {
    /// The message fits the format: the lengths fit their fields and the
    /// fixed parts have their sizes.
    pub open spec fn wf(self) -> bool {
        &&& self.preamble matches Some(p) ==> p.wf()
        &&& self.header_ct.len() <= u16::MAX
        &&& self.header_nonce.len() == 12
        &&& self.body.len() <= u32::MAX
        &&& self.body_nonce.len() == 12
    }
}

/// The bytes of a preamble.
pub open spec fn spec_encode_preamble(p: PreambleView) -> Seq<u8> {
    match p.opk_used {
        Some(k) => p.ik_sender + p.ek_sender + seq![1u8] + k,
        None => p.ik_sender + p.ek_sender + seq![0u8],
    }
}

/// The bytes that follow the optional preamble.
pub open spec fn spec_encode_tail(m: WireView) -> Seq<u8> {
    spec_u16_bytes(m.header_ct.len() as int) + m.header_ct + m.header_nonce + spec_u32_bytes(
        m.body.len() as int,
    ) + m.body + m.body_nonce
}

/// The bytes of a wire message.
pub open spec fn spec_encode(m: WireView) -> Seq<u8> {
    match m.preamble {
        Some(p) => seq![WIRE_VERSION, 1u8] + spec_encode_preamble(p) + spec_encode_tail(m),
        None => seq![WIRE_VERSION, 0u8] + spec_encode_tail(m),
    }
}

/// The preamble that starts at the front of `bytes`, and its length.
pub open spec fn spec_decode_preamble(bytes: Seq<u8>) -> Option<(PreambleView, nat)> {
    if bytes.len() < 65 {
        None
    } else if bytes[64] == 0 {
        Some(
            (
                PreambleView {
                    ik_sender: bytes.subrange(0, 32),
                    ek_sender: bytes.subrange(32, 64),
                    opk_used: None,
                },
                65,
            ),
        )
    } else if bytes[64] == 1 && bytes.len() >= 97 {
        Some(
            (
                PreambleView {
                    ik_sender: bytes.subrange(0, 32),
                    ek_sender: bytes.subrange(32, 64),
                    opk_used: Some(bytes.subrange(65, 97)),
                },
                97,
            ),
        )
    } else {
        None
    }
}

/// The message whose part after the preamble is exactly `bytes`.
pub open spec fn spec_decode_tail(preamble: Option<PreambleView>, bytes: Seq<u8>) -> Option<
    WireView,
> {
    if bytes.len() < 2 {
        None
    } else {
        let hlen = spec_u16_be(bytes.subrange(0, 2));
        if bytes.len() < 2 + hlen + 12 + 4 {
            None
        } else {
            let blen = spec_u32_be(bytes.subrange(2 + hlen + 12, 2 + hlen + 16));
            if bytes.len() != 2 + hlen + 16 + blen + 12 {
                None
            } else {
                Some(
                    WireView {
                        preamble,
                        header_ct: bytes.subrange(2, 2 + hlen),
                        header_nonce: bytes.subrange(2 + hlen, 2 + hlen + 12),
                        body: bytes.subrange(2 + hlen + 16, 2 + hlen + 16 + blen),
                        body_nonce: bytes.subrange(2 + hlen + 16 + blen, 2 + hlen + 16 + blen + 12),
                    },
                )
            }
        }
    }
}

/// The message that `bytes` hold, if they are in the format.
pub open spec fn spec_decode(bytes: Seq<u8>) -> Option<WireView> {
    if bytes.len() < 2 || bytes[0] != WIRE_VERSION {
        None
    } else if bytes[1] == 0 {
        spec_decode_tail(None, bytes.subrange(2, bytes.len() as int))
    } else if bytes[1] == 1 {
        match spec_decode_preamble(bytes.subrange(2, bytes.len() as int)) {
            Some((p, used)) => spec_decode_tail(
                Some(p),
                bytes.subrange(2 + used as int, bytes.len() as int),
            ),
            None => None,
        }
    } else {
        None
    }
}

proof fn lemma_tail_round_trip(m: WireView)
    requires
        m.wf(),
    ensures
        spec_decode_tail(m.preamble, spec_encode_tail(m)) == Some(m),
{
    let b = spec_encode_tail(m);
    let hlen = m.header_ct.len() as int;
    let blen = m.body.len() as int;
    lemma_u16_round_trip(hlen);
    lemma_u32_round_trip(blen);
    assert(b.len() == 2 + hlen + 12 + 4 + blen + 12);
    assert(b.subrange(0, 2) =~= spec_u16_bytes(hlen));
    assert(b.subrange(2, 2 + hlen) =~= m.header_ct);
    assert(b.subrange(2 + hlen, 2 + hlen + 12) =~= m.header_nonce);
    assert(b.subrange(2 + hlen + 16, 2 + hlen + 16 + blen) =~= m.body);
    assert(b.subrange(2 + hlen + 16 + blen, 2 + hlen + 16 + blen + 12) =~= m.body_nonce);
}

proof fn lemma_tail_decode_inverse(preamble: Option<PreambleView>, bytes: Seq<u8>)
    requires
        spec_decode_tail(preamble, bytes) is Some,
    ensures
        spec_decode_tail(preamble, bytes)->0.preamble == preamble,
        spec_decode_tail(preamble, bytes)->0.header_ct.len() <= u16::MAX,
        spec_decode_tail(preamble, bytes)->0.header_nonce.len() == 12,
        spec_decode_tail(preamble, bytes)->0.body.len() <= u32::MAX,
        spec_decode_tail(preamble, bytes)->0.body_nonce.len() == 12,
        spec_encode_tail(spec_decode_tail(preamble, bytes)->0) == bytes,
{
    let m = spec_decode_tail(preamble, bytes)->0;
    let hlen = spec_u16_be(bytes.subrange(0, 2));
    lemma_u16_bytes_of_value(bytes.subrange(0, 2));
    let blen = spec_u32_be(bytes.subrange(2 + hlen + 12, 2 + hlen + 16));
    lemma_u32_bytes_of_value(bytes.subrange(2 + hlen + 12, 2 + hlen + 16));
    assert(m.header_ct.len() == hlen);
    assert(spec_encode_tail(m) =~= bytes);
}

/// Decoding the encoding of a message that fits the format gives the
/// message back.
pub proof fn lemma_wire_round_trip(m: WireView)
    requires
        m.wf(),
    ensures
        spec_decode(spec_encode(m)) == Some(m),
{
    let b = spec_encode(m);
    let t = spec_encode_tail(m);
    lemma_tail_round_trip(m);
    match m.preamble {
        Some(p) => {
            let pb = spec_encode_preamble(p);
            assert(b.subrange(2, b.len() as int) =~= pb + t);
            let rest = pb + t;
            match p.opk_used {
                Some(k) => {
                    assert(pb.len() == 97);
                    assert(rest[64] == 1);
                    assert(rest.subrange(0, 32) =~= p.ik_sender);
                    assert(rest.subrange(32, 64) =~= p.ek_sender);
                    assert(rest.subrange(65, 97) =~= k);
                    assert(b.subrange(99, b.len() as int) =~= t);
                },
                None => {
                    assert(pb.len() == 65);
                    assert(rest.subrange(0, 32) =~= p.ik_sender);
                    assert(rest.subrange(32, 64) =~= p.ek_sender);
                    assert(b.subrange(67, b.len() as int) =~= t);
                },
            }
        },
        None => {
            assert(b.subrange(2, b.len() as int) =~= t);
        },
    }
}

/// Bytes that decode are the encoding of what they decode to, and that
/// message fits the format: no two byte strings hold the same message.
pub proof fn lemma_wire_decode_inverse(bytes: Seq<u8>)
    requires
        spec_decode(bytes) is Some,
    ensures
        spec_decode(bytes)->0.wf(),
        spec_encode(spec_decode(bytes)->0) == bytes,
{
    let m = spec_decode(bytes)->0;
    let rest = bytes.subrange(2, bytes.len() as int);
    if bytes[1] == 0 {
        lemma_tail_decode_inverse(None, rest);
        assert(spec_encode(m) =~= bytes);
    } else {
        let (p, used) = spec_decode_preamble(rest)->0;
        let t = bytes.subrange(2 + used as int, bytes.len() as int);
        lemma_tail_decode_inverse(Some(p), t);
        assert(spec_encode_preamble(p) =~= rest.subrange(0, used as int));
    }
}

impl Preamble {
    /// Appends the bytes of the preamble.
    fn encode_into(&self, out: &mut Vec<u8>)
        ensures
            final(out)@ == old(out)@ + spec_encode_preamble(self@),
    {
        append(out, &self.ik_sender);
        append(out, &self.ek_sender);
        match self.opk_used {
            Some(k) => {
                out.push(1);
                append(out, &k);
            },
            None => {
                out.push(0);
            },
        }
    }

    /// Reads a preamble from the front of `bytes`; also returns its length.
    fn decode_from(bytes: &[u8]) -> (out: Option<(Preamble, usize)>)
        ensures
            match out {
                Some((p, used)) => spec_decode_preamble(bytes@) == Some((p@, used as nat))
                    && used <= bytes@.len(),
                None => spec_decode_preamble(bytes@) is None,
            },
    {
        if bytes.len() < 65 {
            return None;
        }
        let ik_sender = take::<32>(bytes, 0);
        let ek_sender = take::<32>(bytes, 32);
        let present = bytes[64];
        if present == 0 {
            Some((Preamble { ik_sender, ek_sender, opk_used: None }, 65))
        } else if present == 1 && bytes.len() >= 97 {
            let k = take::<32>(bytes, 65);
            Some((Preamble { ik_sender, ek_sender, opk_used: Some(k) }, 97))
        } else {
            None
        }
    }
}

impl WireMessage {
    /// The bytes of the message; `None` when the header or the body is too
    /// long for its length field.
    pub fn encode(&self) -> (out: Option<Vec<u8>>)
        ensures
            match out {
                Some(bytes) => self@.wf() && bytes@ == spec_encode(self@),
                None => !self@.wf(),
            },
    {
        if self.header_ct.len() > 0xffff || self.body.len() > 0xffff_ffff {
            return None;
        }
        let mut out: Vec<u8> = Vec::new();
        out.push(WIRE_VERSION);
        match self.preamble {
            Some(p) => {
                out.push(1);
                p.encode_into(&mut out);
            },
            None => {
                out.push(0);
            },
        }
        put_u16(&mut out, self.header_ct.len() as u16);
        append(&mut out, self.header_ct.as_slice());
        append(&mut out, &self.header_nonce);
        put_u32(&mut out, self.body.len() as u32);
        append(&mut out, self.body.as_slice());
        append(&mut out, &self.body_nonce);
        Some(out)
    }

    /// The message that `bytes` hold; `None` when they are not in the format.
    pub fn decode(bytes: &[u8]) -> (out: Option<WireMessage>)
        ensures
            match out {
                Some(m) => spec_decode(bytes@) == Some(m@),
                None => spec_decode(bytes@) is None,
            },
    {
        let len = bytes.len();
        if len < 2 || bytes[0] != WIRE_VERSION {
            return None;
        }
        let flags = bytes[1];
        let rest = vstd::slice::slice_subrange(bytes, 2, len);
        if flags == 0 {
            WireMessage::decode_tail(None, rest)
        } else if flags == 1 {
            match Preamble::decode_from(rest) {
                Some((p, used)) => {
                    let tail = vstd::slice::slice_subrange(rest, used, rest.len());
                    assert(tail@ =~= bytes@.subrange(2 + used, bytes@.len() as int));
                    WireMessage::decode_tail(Some(p), tail)
                },
                None => None,
            }
        } else {
            None
        }
    }

    /// Reads what follows the preamble.
    fn decode_tail(preamble: Option<Preamble>, bytes: &[u8]) -> (out: Option<WireMessage>)
        ensures
            match out {
                Some(m) => spec_decode_tail(opt_preamble(preamble), bytes@) == Some(m@),
                None => spec_decode_tail(opt_preamble(preamble), bytes@) is None,
            },
    {
        let len = bytes.len();
        if len < 2 {
            return None;
        }
        let hlen = get_u16(bytes, 0) as usize;
        if len - 2 < hlen || len - 2 - hlen < 16 {
            return None;
        }
        let body_at = 2 + hlen + 16;
        let blen = get_u32(bytes, 2 + hlen + 12) as usize;
        if len - body_at < blen || len - body_at - blen != 12 {
            return None;
        }
        let header_ct = to_vec(vstd::slice::slice_subrange(bytes, 2, 2 + hlen));
        let header_nonce = take::<12>(bytes, 2 + hlen);
        let body = to_vec(vstd::slice::slice_subrange(bytes, body_at, body_at + blen));
        let body_nonce = take::<12>(bytes, body_at + blen);
        Some(WireMessage { preamble, header_ct, header_nonce, body, body_nonce })
    }
}

} // verus!
