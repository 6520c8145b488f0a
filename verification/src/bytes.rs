//! Small verified helpers on byte strings.

use vstd::prelude::*;

verus! {

/// Big-endian value of two bytes.
pub open spec fn spec_u16_be(s: Seq<u8>) -> int {
    s[0] * 256 + s[1]
}

/// Big-endian value of four bytes.
pub open spec fn spec_u32_be(s: Seq<u8>) -> int {
    s[0] * 16777216 + s[1] * 65536 + s[2] * 256 + s[3]
}

/// The two bytes that hold `v` big-endian.
pub open spec fn spec_u16_bytes(v: int) -> Seq<u8> {
    seq![((v / 256) % 256) as u8, (v % 256) as u8]
}

/// The four bytes that hold `v` big-endian.
pub open spec fn spec_u32_bytes(v: int) -> Seq<u8> {
    seq![
        ((v / 16777216) % 256) as u8,
        ((v / 65536) % 256) as u8,
        ((v / 256) % 256) as u8,
        (v % 256) as u8,
    ]
}

/// Decoding undoes encoding, for two bytes.
pub proof fn lemma_u16_round_trip(v: int)
    requires
        0 <= v < 65536,
    ensures
        spec_u16_bytes(v).len() == 2,
        spec_u16_be(spec_u16_bytes(v)) == v,
{
}

/// Decoding undoes encoding, for four bytes.
pub proof fn lemma_u32_round_trip(v: int)
    requires
        0 <= v < 4294967296,
    ensures
        spec_u32_bytes(v).len() == 4,
        spec_u32_be(spec_u32_bytes(v)) == v,
{
}

/// Encoding undoes decoding, for two bytes.
pub proof fn lemma_u16_bytes_of_value(s: Seq<u8>)
    requires
        s.len() == 2,
    ensures
        0 <= spec_u16_be(s) < 65536,
        spec_u16_bytes(spec_u16_be(s)) == s,
{
    assert(spec_u16_bytes(spec_u16_be(s)) =~= s);
}

/// Encoding undoes decoding, for four bytes.
pub proof fn lemma_u32_bytes_of_value(s: Seq<u8>)
    requires
        s.len() == 4,
    ensures
        0 <= spec_u32_be(s) < 4294967296,
        spec_u32_bytes(spec_u32_be(s)) == s,
{
    assert(spec_u32_bytes(spec_u32_be(s)) =~= s);
}

/// Copies `N` bytes of `src`, starting at `start`, into an array.
pub fn take<const N: usize>(src: &[u8], start: usize) -> (out: [u8; N])
    requires
        start + N <= src@.len(),
    ensures
        out@ == src@.subrange(start as int, start + N),
{
    let mut out = [0u8; N];
    let len: usize = src.len();
    let mut i: usize = 0;
    while i < N
        invariant
            i <= N,
            start + N <= len,
            len == src@.len(),
            forall|j: int| 0 <= j < i ==> out@[j] == src@[start + j],
        decreases N - i,
    {
        out[i] = src[start + i];
        i += 1;
    }
    out
}

/// Appends `src` to `dst`.
pub fn append(dst: &mut Vec<u8>, src: &[u8])
    ensures
        final(dst)@ == old(dst)@ + src@,
{
    let mut i: usize = 0;
    while i < src.len()
        invariant
            i <= src@.len(),
            dst@ == old(dst)@ + src@.subrange(0, i as int),
        decreases src@.len() - i,
    {
        dst.push(src[i]);
        i += 1;
    }
}

/// A fresh vector with the bytes of `src`.
pub fn to_vec(src: &[u8]) -> (out: Vec<u8>)
    ensures
        out@ == src@,
{
    let mut out: Vec<u8> = Vec::new();
    append(&mut out, src);
    out
}

/// Whether two byte strings hold the same bytes.
pub fn bytes_eq(a: &[u8], b: &[u8]) -> (r: bool)
    ensures
        r == (a@ == b@),
{
    if a.len() != b.len() {
        return false;
    }
    let mut i: usize = 0;
    while i < a.len()
        invariant
            i <= a@.len(),
            a@.len() == b@.len(),
            forall|j: int| 0 <= j < i ==> a@[j] == b@[j],
        decreases a@.len() - i,
    {
        if a[i] != b[i] {
            return false;
        }
        i += 1;
    }
    assert(a@ =~= b@);
    true
}

/// Whether every byte is zero.
pub open spec fn is_all_zero(s: Seq<u8>) -> bool {
    forall|i: int| 0 <= i < s.len() ==> s[i] == 0
}

/// Whether every byte of `a` is zero.
pub fn all_zero(a: &[u8]) -> (r: bool)
    ensures
        r == is_all_zero(a@),
{
    let mut i: usize = 0;
    while i < a.len()
        invariant
            i <= a@.len(),
            forall|j: int| 0 <= j < i ==> a@[j] == 0,
        decreases a@.len() - i,
    {
        if a[i] != 0 {
            return false;
        }
        i += 1;
    }
    true
}

/// Appends `v` as two big-endian bytes.
pub fn put_u16(dst: &mut Vec<u8>, v: u16)
    ensures
        final(dst)@ == old(dst)@ + spec_u16_bytes(v as int),
{
    dst.push((v / 256) as u8);
    dst.push((v % 256) as u8);
}

/// Appends `v` as four big-endian bytes.
pub fn put_u32(dst: &mut Vec<u8>, v: u32)
    ensures
        final(dst)@ == old(dst)@ + spec_u32_bytes(v as int),
{
    dst.push((v / 16777216) as u8);
    dst.push(((v / 65536) % 256) as u8);
    dst.push(((v / 256) % 256) as u8);
    dst.push((v % 256) as u8);
}

/// Reads two big-endian bytes at `at`.
pub fn get_u16(src: &[u8], at: usize) -> (v: u16)
    requires
        at + 2 <= src@.len(),
    ensures
        v == spec_u16_be(src@.subrange(at as int, at + 2)),
{
    let hi: u16 = src[at] as u16;
    let lo: u16 = src[at + 1] as u16;
    hi * 256 + lo
}

/// Reads four big-endian bytes at `at`.
pub fn get_u32(src: &[u8], at: usize) -> (v: u32)
    requires
        at + 4 <= src@.len(),
    ensures
        v == spec_u32_be(src@.subrange(at as int, at + 4)),
{
    let a: u32 = src[at] as u32;
    let b: u32 = src[at + 1] as u32;
    let c: u32 = src[at + 2] as u32;
    let d: u32 = src[at + 3] as u32;
    a * 16777216 + b * 65536 + c * 256 + d
}

} // verus!
