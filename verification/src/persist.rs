//! The stored form of a session and of a key bundle: an explicit binary
//! encoding that gives back, byte for byte, what was put in.
//!
//! A session is a version byte, the fixed-size fields in a fixed order (an
//! optional key as a flag byte and thirty-two bytes, zero when absent), the
//! associated data with its length, and the banked keys with their count,
//! each as header key, number and message key. Numbers are big-endian.

use vstd::prelude::*;
use crate::bytes::{spec_u32_be, spec_u32_bytes, lemma_u32_round_trip, lemma_u32_bytes_of_value, is_all_zero, all_zero, take, append, to_vec, put_u32, get_u32};
use crate::bundle::KeyBundle;
use crate::client::{Vault, SessionRecord};
use crate::manager::{PeerSession, PeerView, SessionManager, peers_view};
use crate::primitives::{KeyPair, opt_seq, aead_seal_spec, aead_open_spec, aead_seal, aead_open, random_nonce, MAX_SEAL_LEN};
use crate::session::{Session, SessionView};
use crate::skipped::{SkippedKey, SkippedKeyView, store_view};

verus! {

/// The version byte of the stored forms.
pub const STORE_VERSION: u8 = 1;

/// The stored form of an optional key: a flag, then the key or zeros.
pub open spec fn spec_encode_opt(key: Option<Seq<u8>>) -> Seq<u8> {
    match key {
        Some(k) => seq![1u8] + k,
        None => seq![0u8] + Seq::new(32, |i: int| 0u8),
    }
}

/// The optional key that thirty-three bytes hold, if they hold one.
pub open spec fn spec_decode_opt(bytes: Seq<u8>) -> Option<Option<Seq<u8>>> {
    if bytes[0] == 1 {
        Some(Some(bytes.subrange(1, 33)))
    } else if bytes[0] == 0 && is_all_zero(bytes.subrange(1, 33)) {
        Some(None)
    } else {
        None
    }
}

proof fn lemma_opt_round_trip(key: Option<Seq<u8>>)
    requires
        key matches Some(k) ==> k.len() == 32,
    ensures
        spec_encode_opt(key).len() == 33,
        spec_decode_opt(spec_encode_opt(key)) == Some(key),
{
}

proof fn lemma_opt_inverse(bytes: Seq<u8>)
    requires
        bytes.len() == 33,
        spec_decode_opt(bytes) is Some,
    ensures
        spec_encode_opt(spec_decode_opt(bytes)->0) == bytes,
        spec_decode_opt(bytes)->0 matches Some(k) ==> k.len() == 32,
{
    let key = spec_decode_opt(bytes)->0;
    assert(spec_encode_opt(key) =~= bytes) by {
        if key is None {
            assert forall|i: int| 0 <= i < 33 implies spec_encode_opt(key)[i] == bytes[i] by {
                if i > 0 {
                    assert(bytes.subrange(1, 33)[i - 1] == 0);
                }
            }
        }
    }
}

/// Appends the stored form of an optional key.
fn put_opt(out: &mut Vec<u8>, key: &Option<[u8; 32]>)
    ensures
        final(out)@ == old(out)@ + spec_encode_opt(opt_seq(*key)),
{
    match key {
        Some(k) => {
            out.push(1);
            append(out, k);
        },
        None => {
            out.push(0);
            let zeros = [0u8; 32];
            append(out, &zeros);
        },
    }
}

/// Reads the stored form of an optional key at `at`.
fn get_opt(bytes: &[u8], at: usize) -> (out: Option<Option<[u8; 32]>>)
    requires
        at + 33 <= bytes@.len(),
    ensures
        match out {
            Some(key) => spec_decode_opt(bytes@.subrange(at as int, at + 33)) == Some(opt_seq(key)),
            None => spec_decode_opt(bytes@.subrange(at as int, at + 33)) is None,
        },
{
    let ghost part = bytes@.subrange(at as int, at + 33);
    // a length fits `usize`, so the offsets below do too
    let len: usize = bytes.len();
    let key = take::<32>(bytes, at + 1);
    assert(key@ =~= part.subrange(1, 33));
    if bytes[at] == 1 {
        Some(Some(key))
    } else if bytes[at] == 0 && all_zero(&key) {
        Some(None)
    } else {
        None
    }
}

/// The stored form of a banked key.
pub open spec fn spec_encode_entry(e: SkippedKeyView) -> Seq<u8> {
    e.hk + spec_u32_bytes(e.n as int) + e.mk
}

/// The banked key that sixty-eight bytes hold.
pub open spec fn spec_decode_entry(bytes: Seq<u8>) -> SkippedKeyView {
    SkippedKeyView {
        hk: bytes.subrange(0, 32),
        n: spec_u32_be(bytes.subrange(32, 36)) as nat,
        mk: bytes.subrange(36, 68),
    }
}

/// What a banked key must be to have a stored form.
pub open spec fn spec_entry_ok(e: SkippedKeyView) -> bool {
    e.hk.len() == 32 && e.mk.len() == 32 && e.n <= u32::MAX
}

/// The stored form of a list of banked keys: one after the other.
pub open spec fn spec_encode_entries(store: Seq<SkippedKeyView>) -> Seq<u8>
    decreases store.len(),
{
    if store.len() == 0 {
        Seq::empty()
    } else {
        spec_encode_entries(store.drop_last()) + spec_encode_entry(store.last())
    }
}

/// The `count` banked keys that `bytes` hold.
pub open spec fn spec_decode_entries(bytes: Seq<u8>, count: nat) -> Seq<SkippedKeyView> {
    Seq::new(count, |i: int| spec_decode_entry(bytes.subrange(68 * i, 68 * i + 68)))
}

/// Every banked key of the list has a stored form.
pub open spec fn spec_entries_ok(store: Seq<SkippedKeyView>) -> bool {
    forall|i: int| 0 <= i < store.len() ==> spec_entry_ok(#[trigger] store[i])
}

proof fn lemma_entry_round_trip(e: SkippedKeyView)
    requires
        spec_entry_ok(e),
    ensures
        spec_encode_entry(e).len() == 68,
        spec_decode_entry(spec_encode_entry(e)) == e,
{
    let b = spec_encode_entry(e);
    lemma_u32_round_trip(e.n as int);
    assert(b.subrange(0, 32) =~= e.hk);
    assert(b.subrange(36, 68) =~= e.mk);
}

proof fn lemma_entry_inverse(bytes: Seq<u8>)
    requires
        bytes.len() == 68,
    ensures
        spec_entry_ok(spec_decode_entry(bytes)),
        spec_encode_entry(spec_decode_entry(bytes)) == bytes,
{
    lemma_u32_bytes_of_value(bytes.subrange(32, 36));
}

proof fn lemma_entries_round_trip(store: Seq<SkippedKeyView>)
    requires
        spec_entries_ok(store),
    ensures
        spec_encode_entries(store).len() == 68 * store.len(),
        spec_decode_entries(spec_encode_entries(store), store.len()) == store,
    decreases store.len(),
{
    let b = spec_encode_entries(store);
    if store.len() > 0 {
        let front = store.drop_last();
        let fb = spec_encode_entries(front);
        lemma_entries_round_trip(front);
        lemma_entry_round_trip(store.last());
        let back = spec_decode_entries(b, store.len());
        assert forall|i: int| 0 <= i < store.len() implies back[i] == store[i] by {
            if i < front.len() {
                assert(b.subrange(68 * i, 68 * i + 68) =~= fb.subrange(68 * i, 68 * i + 68));
                assert(spec_decode_entries(fb, front.len())[i] == front[i]);
            } else {
                assert(b.subrange(68 * i, 68 * i + 68) =~= spec_encode_entry(store.last()));
            }
        }
    }
}

proof fn lemma_entries_split(bytes: Seq<u8>, count: nat)
    requires
        count > 0,
        bytes.len() == 68 * count,
    ensures
        spec_decode_entries(bytes, count).drop_last() == spec_decode_entries(
            bytes.subrange(0, 68 * (count - 1)),
            (count - 1) as nat,
        ),
        spec_decode_entries(bytes, count).last() == spec_decode_entry(
            bytes.subrange(68 * (count - 1), 68 * (count as int)),
        ),
        bytes.subrange(0, 68 * (count - 1)) + bytes.subrange(68 * (count - 1), 68 * (count as int)) == bytes,
{
    let store = spec_decode_entries(bytes, count);
    let front_bytes = bytes.subrange(0, 68 * (count - 1));
    let front = spec_decode_entries(front_bytes, (count - 1) as nat);
    assert forall|i: int| 0 <= i < count - 1 implies store.drop_last()[i] == front[i] by {
        assert(bytes.subrange(68 * i, 68 * i + 68) =~= front_bytes.subrange(68 * i, 68 * i + 68));
    }
}

proof fn lemma_entries_decoded_ok(bytes: Seq<u8>, count: nat)
    requires
        bytes.len() == 68 * count,
    ensures
        spec_entries_ok(spec_decode_entries(bytes, count)),
{
    let store = spec_decode_entries(bytes, count);
    assert forall|i: int| 0 <= i < store.len() implies spec_entry_ok(#[trigger] store[i]) by {
        lemma_entry_inverse(bytes.subrange(68 * i, 68 * i + 68));
    }
}

proof fn lemma_entries_inverse(bytes: Seq<u8>, count: nat)
    requires
        bytes.len() == 68 * count,
    ensures
        spec_entries_ok(spec_decode_entries(bytes, count)),
        spec_encode_entries(spec_decode_entries(bytes, count)) == bytes,
    decreases count,
{
    let store = spec_decode_entries(bytes, count);
    lemma_entries_decoded_ok(bytes, count);
    if count > 0 {
        let front_bytes = bytes.subrange(0, 68 * (count - 1));
        let last_bytes = bytes.subrange(68 * (count - 1), 68 * (count as int));
        lemma_entries_split(bytes, count);
        lemma_entries_inverse(front_bytes, (count - 1) as nat);
        lemma_entry_inverse(last_bytes);
        assert(spec_encode_entries(store) == spec_encode_entries(store.drop_last())
            + spec_encode_entry(store.last()));
    }
}

/// Appends the stored form of the banked keys.
fn put_entries(out: &mut Vec<u8>, entries: &Vec<SkippedKey>)
    ensures
        final(out)@ == old(out)@ + spec_encode_entries(store_view(entries@)),
{
    let ghost store = store_view(entries@);
    let mut i: usize = 0;
    while i < entries.len()
        invariant
            i <= entries@.len(),
            store == store_view(entries@),
            out@ == old(out)@ + spec_encode_entries(store.subrange(0, i as int)),
        decreases entries@.len() - i,
    {
        let e = &entries[i];
        append(out, &e.hk);
        put_u32(out, e.n);
        append(out, &e.mk);
        proof {
            let upto = store.subrange(0, i + 1);
            assert(upto.drop_last() =~= store.subrange(0, i as int));
        }
        i += 1;
    }
    assert(store.subrange(0, i as int) =~= store);
}

/// Reads `count` banked keys that start at `at` and end with `bytes`.
fn get_entries(bytes: &[u8], at: usize, count: usize) -> (out: Vec<SkippedKey>)
    requires
        at + 68 * count == bytes@.len(),
    ensures
        store_view(out@) == spec_decode_entries(
            bytes@.subrange(at as int, bytes@.len() as int),
            count as nat,
        ),
{
    let ghost tail = bytes@.subrange(at as int, bytes@.len() as int);
    let len: usize = bytes.len();
    let mut out: Vec<SkippedKey> = Vec::new();
    let mut i: usize = 0;
    while i < count
        invariant
            i <= count,
            len == bytes@.len(),
            at + 68 * count == len,
            tail == bytes@.subrange(at as int, bytes@.len() as int),
            out@.len() == i,
            forall|j: int|
                0 <= j < i ==> (#[trigger] out@[j])@ == spec_decode_entry(
                    tail.subrange(68 * j, 68 * j + 68),
                ),
        decreases count - i,
    {
        let base: usize = at + 68 * i;
        let ghost chunk = tail.subrange(68 * i, 68 * i + 68);
        let hk = take::<32>(bytes, base);
        let n = get_u32(bytes, base + 32);
        let mk = take::<32>(bytes, base + 36);
        assert(hk@ =~= chunk.subrange(0, 32));
        assert(mk@ =~= chunk.subrange(36, 68));
        out.push(SkippedKey { hk, n, mk });
        i += 1;
    }
    out
}

/// What a session must be to have a stored form: keys of 32 bytes, counters
/// and lengths that fit four bytes.
pub open spec fn spec_session_ok(s: SessionView) -> bool {
    &&& s.ad.len() <= u32::MAX
    &&& s.dh_s_secret.len() == 32
    &&& s.dh_s_public.len() == 32
    &&& s.dh_r matches Some(k) ==> k.len() == 32
    &&& s.rk.len() == 32
    &&& s.ck_s matches Some(k) ==> k.len() == 32
    &&& s.ck_r matches Some(k) ==> k.len() == 32
    &&& s.hk_s matches Some(k) ==> k.len() == 32
    &&& s.hk_r matches Some(k) ==> k.len() == 32
    &&& s.nhk_s.len() == 32
    &&& s.nhk_r.len() == 32
    &&& s.n_s <= u32::MAX
    &&& s.n_r <= u32::MAX
    &&& s.pn <= u32::MAX
    &&& s.max_skip <= u32::MAX
    &&& s.skipped.len() <= u32::MAX
    &&& spec_entries_ok(s.skipped)
}

/// The ratchet keys and the root key: 129 bytes.
pub open spec fn spec_encode_keys(s: SessionView) -> Seq<u8> {
    s.dh_s_secret + s.dh_s_public + spec_encode_opt(s.dh_r) + s.rk
}

/// The chain keys and the header keys: 132 bytes.
pub open spec fn spec_encode_chains(s: SessionView) -> Seq<u8> {
    spec_encode_opt(s.ck_s) + spec_encode_opt(s.ck_r) + spec_encode_opt(s.hk_s) + spec_encode_opt(
        s.hk_r,
    )
}

/// The next header keys, the counters and the limit: 80 bytes.
pub open spec fn spec_encode_counters(s: SessionView) -> Seq<u8> {
    s.nhk_s + s.nhk_r + spec_u32_bytes(s.n_s as int) + spec_u32_bytes(s.n_r as int)
        + spec_u32_bytes(s.pn as int) + spec_u32_bytes(s.max_skip as int)
}

/// The associated data and the banked keys, each behind its length.
pub open spec fn spec_encode_lists(s: SessionView) -> Seq<u8> {
    spec_u32_bytes(s.ad.len() as int) + s.ad + spec_u32_bytes(s.skipped.len() as int)
        + spec_encode_entries(s.skipped)
}

/// The stored form of a session.
pub open spec fn spec_encode_session(s: SessionView) -> Seq<u8> {
    seq![STORE_VERSION] + spec_encode_keys(s) + spec_encode_chains(s) + spec_encode_counters(s)
        + spec_encode_lists(s)
}

/// The four optional keys that 132 bytes hold, if they hold them.
pub open spec fn spec_decode_chains(bytes: Seq<u8>) -> Option<
    (Option<Seq<u8>>, Option<Seq<u8>>, Option<Seq<u8>>, Option<Seq<u8>>),
> {
    match (
        spec_decode_opt(bytes.subrange(0, 33)),
        spec_decode_opt(bytes.subrange(33, 66)),
        spec_decode_opt(bytes.subrange(66, 99)),
        spec_decode_opt(bytes.subrange(99, 132)),
    ) {
        (Some(a), Some(b), Some(c), Some(d)) => Some((a, b, c, d)),
        _ => None,
    }
}

/// The associated data and the banked keys that `bytes` hold, if they hold
/// both and nothing else.
pub open spec fn spec_decode_lists(bytes: Seq<u8>) -> Option<(Seq<u8>, Seq<SkippedKeyView>)> {
    if bytes.len() < 8 {
        None
    } else {
        let ad_len = spec_u32_be(bytes.subrange(0, 4));
        if bytes.len() < 8 + ad_len {
            None
        } else {
            let count = spec_u32_be(bytes.subrange(4 + ad_len, 8 + ad_len));
            if bytes.len() != 8 + ad_len + 68 * count {
                None
            } else {
                Some(
                    (
                        bytes.subrange(4, 4 + ad_len),
                        spec_decode_entries(
                            bytes.subrange(8 + ad_len, bytes.len() as int),
                            count as nat,
                        ),
                    ),
                )
            }
        }
    }
}

/// The session that `bytes` hold, if they are a stored session.
pub open spec fn spec_decode_session(bytes: Seq<u8>) -> Option<SessionView> {
    if bytes.len() < 342 || bytes[0] != STORE_VERSION {
        None
    } else {
        let keys = bytes.subrange(1, 130);
        let counters = bytes.subrange(262, 342);
        match (
            spec_decode_opt(keys.subrange(64, 97)),
            spec_decode_chains(bytes.subrange(130, 262)),
            spec_decode_lists(bytes.subrange(342, bytes.len() as int)),
        ) {
            (Some(dh_r), Some(chains), Some(lists)) => Some(
                SessionView {
                    ad: lists.0,
                    dh_s_secret: keys.subrange(0, 32),
                    dh_s_public: keys.subrange(32, 64),
                    dh_r,
                    rk: keys.subrange(97, 129),
                    ck_s: chains.0,
                    ck_r: chains.1,
                    hk_s: chains.2,
                    hk_r: chains.3,
                    nhk_s: counters.subrange(0, 32),
                    nhk_r: counters.subrange(32, 64),
                    n_s: spec_u32_be(counters.subrange(64, 68)) as nat,
                    n_r: spec_u32_be(counters.subrange(68, 72)) as nat,
                    pn: spec_u32_be(counters.subrange(72, 76)) as nat,
                    skipped: lists.1,
                    max_skip: spec_u32_be(counters.subrange(76, 80)) as nat,
                },
            ),
            _ => None,
        }
    }
}

proof fn lemma_keys_round_trip(s: SessionView)
    requires
        spec_session_ok(s),
    ensures
        spec_encode_keys(s).len() == 129,
        spec_encode_keys(s).subrange(0, 32) == s.dh_s_secret,
        spec_encode_keys(s).subrange(32, 64) == s.dh_s_public,
        spec_decode_opt(spec_encode_keys(s).subrange(64, 97)) == Some(s.dh_r),
        spec_encode_keys(s).subrange(97, 129) == s.rk,
{
    let b = spec_encode_keys(s);
    lemma_opt_round_trip(s.dh_r);
    assert(b.subrange(97, 129) =~= s.rk);
}

proof fn lemma_chains_round_trip(s: SessionView)
    requires
        spec_session_ok(s),
    ensures
        spec_encode_chains(s).len() == 132,
        spec_decode_chains(spec_encode_chains(s)) == Some((s.ck_s, s.ck_r, s.hk_s, s.hk_r)),
{
    lemma_opt_round_trip(s.ck_s);
    lemma_opt_round_trip(s.ck_r);
    lemma_opt_round_trip(s.hk_s);
    lemma_opt_round_trip(s.hk_r);
}

proof fn lemma_counters_round_trip(s: SessionView)
    requires
        spec_session_ok(s),
    ensures
        spec_encode_counters(s).len() == 80,
        spec_encode_counters(s).subrange(0, 32) == s.nhk_s,
        spec_encode_counters(s).subrange(32, 64) == s.nhk_r,
        spec_u32_be(spec_encode_counters(s).subrange(64, 68)) == s.n_s,
        spec_u32_be(spec_encode_counters(s).subrange(68, 72)) == s.n_r,
        spec_u32_be(spec_encode_counters(s).subrange(72, 76)) == s.pn,
        spec_u32_be(spec_encode_counters(s).subrange(76, 80)) == s.max_skip,
{
    lemma_u32_round_trip(s.n_s as int);
    lemma_u32_round_trip(s.n_r as int);
    lemma_u32_round_trip(s.pn as int);
    lemma_u32_round_trip(s.max_skip as int);
}

proof fn lemma_lists_round_trip(s: SessionView)
    requires
        spec_session_ok(s),
    ensures
        spec_decode_lists(spec_encode_lists(s)) == Some((s.ad, s.skipped)),
{
    let b = spec_encode_lists(s);
    let ad_len = s.ad.len() as int;
    let count = s.skipped.len() as int;
    lemma_u32_round_trip(ad_len);
    lemma_u32_round_trip(count);
    lemma_entries_round_trip(s.skipped);
    assert(b.subrange(8 + ad_len, b.len() as int) =~= spec_encode_entries(s.skipped));
}

/// Reading a stored session gives the session back, field for field.
pub proof fn lemma_session_round_trip(s: SessionView)
    requires
        spec_session_ok(s),
    ensures
        spec_decode_session(spec_encode_session(s)) == Some(s),
{
    let b = spec_encode_session(s);
    lemma_keys_round_trip(s);
    lemma_chains_round_trip(s);
    lemma_counters_round_trip(s);
    lemma_lists_round_trip(s);
    assert(b.subrange(1, 130) =~= spec_encode_keys(s));
    assert(b.subrange(130, 262) =~= spec_encode_chains(s));
    assert(b.subrange(262, 342) =~= spec_encode_counters(s));
    assert(b.subrange(342, b.len() as int) =~= spec_encode_lists(s));
}

proof fn lemma_chains_inverse(bytes: Seq<u8>)
    requires
        bytes.len() == 132,
        spec_decode_chains(bytes) is Some,
    ensures
        ({
            let c = spec_decode_chains(bytes)->0;
            &&& c.0 matches Some(k) ==> k.len() == 32
            &&& c.1 matches Some(k) ==> k.len() == 32
            &&& c.2 matches Some(k) ==> k.len() == 32
            &&& c.3 matches Some(k) ==> k.len() == 32
            &&& spec_encode_opt(c.0) + spec_encode_opt(c.1) + spec_encode_opt(c.2)
                + spec_encode_opt(c.3) == bytes
        }),
{
    let c = spec_decode_chains(bytes)->0;
    lemma_opt_inverse(bytes.subrange(0, 33));
    lemma_opt_inverse(bytes.subrange(33, 66));
    lemma_opt_inverse(bytes.subrange(66, 99));
    lemma_opt_inverse(bytes.subrange(99, 132));
    assert(spec_encode_opt(c.0) + spec_encode_opt(c.1) + spec_encode_opt(c.2) + spec_encode_opt(c.3)
        =~= bytes);
}

proof fn lemma_lists_inverse(bytes: Seq<u8>)
    requires
        spec_decode_lists(bytes) is Some,
    ensures
        ({
            let l = spec_decode_lists(bytes)->0;
            &&& l.0.len() <= u32::MAX
            &&& l.1.len() <= u32::MAX
            &&& spec_entries_ok(l.1)
            &&& spec_u32_bytes(l.0.len() as int) + l.0 + spec_u32_bytes(l.1.len() as int)
                + spec_encode_entries(l.1) == bytes
        }),
{
    let l = spec_decode_lists(bytes)->0;
    let ad_len = spec_u32_be(bytes.subrange(0, 4));
    lemma_u32_bytes_of_value(bytes.subrange(0, 4));
    let count = spec_u32_be(bytes.subrange(4 + ad_len, 8 + ad_len));
    lemma_u32_bytes_of_value(bytes.subrange(4 + ad_len, 8 + ad_len));
    lemma_entries_inverse(bytes.subrange(8 + ad_len, bytes.len() as int), count as nat);
    assert(spec_u32_bytes(l.0.len() as int) + l.0 + spec_u32_bytes(l.1.len() as int)
        + spec_encode_entries(l.1) =~= bytes);
}

proof fn lemma_keys_inverse(keys: Seq<u8>)
    requires
        keys.len() == 129,
        spec_decode_opt(keys.subrange(64, 97)) is Some,
    ensures
        keys.subrange(0, 32) + keys.subrange(32, 64) + spec_encode_opt(
            spec_decode_opt(keys.subrange(64, 97))->0,
        ) + keys.subrange(97, 129) == keys,
        spec_decode_opt(keys.subrange(64, 97))->0 matches Some(k) ==> k.len() == 32,
{
    lemma_opt_inverse(keys.subrange(64, 97));
    assert(keys.subrange(0, 32) + keys.subrange(32, 64) + keys.subrange(64, 97) + keys.subrange(
        97,
        129,
    ) =~= keys);
}

proof fn lemma_counters_inverse(counters: Seq<u8>)
    requires
        counters.len() == 80,
    ensures
        counters.subrange(0, 32) + counters.subrange(32, 64) + spec_u32_bytes(
            spec_u32_be(counters.subrange(64, 68)),
        ) + spec_u32_bytes(spec_u32_be(counters.subrange(68, 72))) + spec_u32_bytes(
            spec_u32_be(counters.subrange(72, 76)),
        ) + spec_u32_bytes(spec_u32_be(counters.subrange(76, 80))) == counters,
        0 <= spec_u32_be(counters.subrange(64, 68)) <= u32::MAX,
        0 <= spec_u32_be(counters.subrange(68, 72)) <= u32::MAX,
        0 <= spec_u32_be(counters.subrange(72, 76)) <= u32::MAX,
        0 <= spec_u32_be(counters.subrange(76, 80)) <= u32::MAX,
{
    lemma_u32_bytes_of_value(counters.subrange(64, 68));
    lemma_u32_bytes_of_value(counters.subrange(68, 72));
    lemma_u32_bytes_of_value(counters.subrange(72, 76));
    lemma_u32_bytes_of_value(counters.subrange(76, 80));
    assert(counters.subrange(0, 32) + counters.subrange(32, 64) + counters.subrange(64, 68)
        + counters.subrange(68, 72) + counters.subrange(72, 76) + counters.subrange(76, 80)
        =~= counters);
}

proof fn lemma_session_parts(bytes: Seq<u8>)
    requires
        bytes.len() >= 342,
        bytes[0] == STORE_VERSION,
    ensures
        seq![STORE_VERSION] + bytes.subrange(1, 130) + bytes.subrange(130, 262) + bytes.subrange(
            262,
            342,
        ) + bytes.subrange(342, bytes.len() as int) == bytes,
{
    assert(seq![STORE_VERSION] + bytes.subrange(1, 130) + bytes.subrange(130, 262)
        + bytes.subrange(262, 342) + bytes.subrange(342, bytes.len() as int) =~= bytes);
}

/// Bytes that are a stored session are the stored form of the session they
/// hold: no two byte strings hold the same session.
pub proof fn lemma_session_decode_inverse(bytes: Seq<u8>)
    requires
        spec_decode_session(bytes) is Some,
    ensures
        spec_session_ok(spec_decode_session(bytes)->0),
        spec_encode_session(spec_decode_session(bytes)->0) == bytes,
{
    let keys = bytes.subrange(1, 130);
    let chains = bytes.subrange(130, 262);
    let counters = bytes.subrange(262, 342);
    let lists = bytes.subrange(342, bytes.len() as int);
    lemma_keys_inverse(keys);
    lemma_chains_inverse(chains);
    lemma_counters_inverse(counters);
    lemma_lists_inverse(lists);
    lemma_session_parts(bytes);
}

/// Reads the four optional keys at `at`.
fn get_chains(bytes: &[u8], at: usize) -> (out: Option<
    (Option<[u8; 32]>, Option<[u8; 32]>, Option<[u8; 32]>, Option<[u8; 32]>),
>)
    requires
        at + 132 <= bytes@.len(),
    ensures
        match out {
            Some(c) => spec_decode_chains(bytes@.subrange(at as int, at + 132)) == Some(
                (opt_seq(c.0), opt_seq(c.1), opt_seq(c.2), opt_seq(c.3)),
            ),
            None => spec_decode_chains(bytes@.subrange(at as int, at + 132)) is None,
        },
{
    let ghost part = bytes@.subrange(at as int, at + 132);
    // a length fits `usize`, so the offsets below do too
    let len: usize = bytes.len();
    assert(part.subrange(0, 33) =~= bytes@.subrange(at as int, at + 33));
    assert(part.subrange(33, 66) =~= bytes@.subrange(at + 33, at + 66));
    assert(part.subrange(66, 99) =~= bytes@.subrange(at + 66, at + 99));
    assert(part.subrange(99, 132) =~= bytes@.subrange(at + 99, at + 132));
    match (get_opt(bytes, at), get_opt(bytes, at + 33), get_opt(bytes, at + 66), get_opt(bytes, at + 99)) {
        (Some(a), Some(b), Some(c), Some(d)) => Some((a, b, c, d)),
        _ => None,
    }
}

/// Reads the associated data and the banked keys that fill `bytes` from
/// `at` on.
fn get_lists(bytes: &[u8], at: usize) -> (out: Option<(Vec<u8>, Vec<SkippedKey>)>)
    requires
        at <= bytes@.len(),
    ensures
        match out {
            Some(l) => spec_decode_lists(bytes@.subrange(at as int, bytes@.len() as int)) == Some(
                (l.0@, store_view(l.1@)),
            ),
            None => spec_decode_lists(bytes@.subrange(at as int, bytes@.len() as int)) is None,
        },
{
    let ghost part = bytes@.subrange(at as int, bytes@.len() as int);
    let len: usize = bytes.len();
    if len - at < 8 {
        return None;
    }
    let ad_len = get_u32(bytes, at) as usize;
    if len - at - 8 < ad_len {
        return None;
    }
    assert(part.subrange(4 + ad_len, 8 + ad_len) =~= bytes@.subrange(
        at + 4 + ad_len,
        at + 8 + ad_len,
    ));
    let count = get_u32(bytes, at + 4 + ad_len) as usize;
    let rest: usize = len - at - 8 - ad_len;
    if rest % 68 != 0 || rest / 68 != count {
        return None;
    }
    let ad = to_vec(vstd::slice::slice_subrange(bytes, at + 4, at + 4 + ad_len));
    let skipped = get_entries(bytes, at + 8 + ad_len, count);
    assert(part.subrange(8 + ad_len, part.len() as int) =~= bytes@.subrange(
        at + 8 + ad_len,
        bytes@.len() as int,
    ));
    Some((ad, skipped))
}

impl Session {
    /// The stored form of the session; `None` when the associated data or
    /// the list of banked keys is too long for its length field.
    pub fn to_bytes(&self) -> (out: Option<Vec<u8>>)
        ensures
            match out {
                Some(bytes) => spec_session_ok(self@) && bytes@ == spec_encode_session(self@),
                None => !spec_session_ok(self@),
            },
    {
        if self.ad.len() > 0xffff_ffff || self.skipped.len() > 0xffff_ffff {
            return None;
        }
        let mut keys: Vec<u8> = Vec::new();
        append(&mut keys, &self.dh_s.secret);
        append(&mut keys, &self.dh_s.public);
        put_opt(&mut keys, &self.dh_r);
        append(&mut keys, &self.rk);

        let mut chains: Vec<u8> = Vec::new();
        put_opt(&mut chains, &self.ck_s);
        put_opt(&mut chains, &self.ck_r);
        put_opt(&mut chains, &self.hk_s);
        put_opt(&mut chains, &self.hk_r);

        let mut counters: Vec<u8> = Vec::new();
        append(&mut counters, &self.nhk_s);
        append(&mut counters, &self.nhk_r);
        put_u32(&mut counters, self.n_s);
        put_u32(&mut counters, self.n_r);
        put_u32(&mut counters, self.pn);
        put_u32(&mut counters, self.max_skip);

        let mut lists: Vec<u8> = Vec::new();
        put_u32(&mut lists, self.ad.len() as u32);
        append(&mut lists, self.ad.as_slice());
        put_u32(&mut lists, self.skipped.len() as u32);
        put_entries(&mut lists, &self.skipped);

        let mut out: Vec<u8> = Vec::new();
        out.push(STORE_VERSION);
        append(&mut out, keys.as_slice());
        append(&mut out, chains.as_slice());
        append(&mut out, counters.as_slice());
        append(&mut out, lists.as_slice());
        Some(out)
    }

    /// The session that `bytes` hold; `None` when they are not a stored
    /// session.
    pub fn from_bytes(bytes: &[u8]) -> (out: Option<Session>)
        ensures
            match out {
                Some(s) => spec_decode_session(bytes@) == Some(s@),
                None => spec_decode_session(bytes@) is None,
            },
    {
        let len = bytes.len();
        if len < 342 || bytes[0] != STORE_VERSION {
            return None;
        }
        let ghost keys = bytes@.subrange(1, 130);
        let ghost counters = bytes@.subrange(262, 342);
        assert(keys.subrange(64, 97) =~= bytes@.subrange(65, 98));
        let (dh_r, chains, lists) = match (get_opt(bytes, 65), get_chains(bytes, 130), get_lists(bytes, 342)) {
            (Some(a), Some(b), Some(c)) => (a, b, c),
            _ => { return None; },
        };
        let secret = take::<32>(bytes, 1);
        let public = take::<32>(bytes, 33);
        let rk = take::<32>(bytes, 98);
        let nhk_s = take::<32>(bytes, 262);
        let nhk_r = take::<32>(bytes, 294);
        let n_s = get_u32(bytes, 326);
        let n_r = get_u32(bytes, 330);
        let pn = get_u32(bytes, 334);
        let max_skip = get_u32(bytes, 338);
        assert(secret@ =~= keys.subrange(0, 32));
        assert(public@ =~= keys.subrange(32, 64));
        assert(rk@ =~= keys.subrange(97, 129));
        assert(nhk_s@ =~= counters.subrange(0, 32));
        assert(nhk_r@ =~= counters.subrange(32, 64));
        Some(
            Session {
                ad: lists.0,
                dh_s: KeyPair { secret, public },
                dh_r,
                rk,
                ck_s: chains.0,
                ck_r: chains.1,
                hk_s: chains.2,
                hk_r: chains.3,
                nhk_s,
                nhk_r,
                n_s,
                n_r,
                pn,
                skipped: lists.1,
                max_skip,
            },
        )
    }
}

/// The mathematical view of a key bundle.
pub struct BundleView {
    pub identity_secret: Seq<u8>,
    pub identity_public: Seq<u8>,
    pub signing_key: Seq<u8>,
    pub verifying_key: Seq<u8>,
    pub spk_secret: Seq<u8>,
    pub spk_public: Seq<u8>,
    pub spk_signature: Seq<u8>,
    pub published: bool,
    pub opks: Seq<(Seq<u8>, Seq<u8>)>,
}

/// The secret and public halves of the pairs, in order.
pub open spec fn pairs_view(opks: Seq<KeyPair>) -> Seq<(Seq<u8>, Seq<u8>)> {
    opks.map_values(|k: KeyPair| (k.secret@, k.public@))
}

impl View for KeyBundle {
    type V = BundleView;

    open spec fn view(&self) -> BundleView {
        BundleView {
            identity_secret: self.identity.secret@,
            identity_public: self.identity.public@,
            signing_key: self.signing_key@,
            verifying_key: self.verifying_key@,
            spk_secret: self.spk.secret@,
            spk_public: self.spk.public@,
            spk_signature: self.spk_signature@,
            published: self.published,
            opks: pairs_view(self.opks@),
        }
    }
}

/// What a key bundle must be to have a stored form.
pub open spec fn spec_bundle_ok(b: BundleView) -> bool {
    &&& b.identity_secret.len() == 32
    &&& b.identity_public.len() == 32
    &&& b.signing_key.len() == 32
    &&& b.verifying_key.len() == 32
    &&& b.spk_secret.len() == 32
    &&& b.spk_public.len() == 32
    &&& b.spk_signature.len() == 64
    &&& b.opks.len() <= u32::MAX
    &&& forall|i: int|
        0 <= i < b.opks.len() ==> (#[trigger] b.opks[i]).0.len() == 32 && b.opks[i].1.len() == 32
}

/// The stored form of a list of key pairs: secret, then public, of each.
pub open spec fn spec_encode_pairs(opks: Seq<(Seq<u8>, Seq<u8>)>) -> Seq<u8>
    decreases opks.len(),
{
    if opks.len() == 0 {
        Seq::empty()
    } else {
        spec_encode_pairs(opks.drop_last()) + (opks.last().0 + opks.last().1)
    }
}

/// The key pair that sixty-four bytes hold.
pub open spec fn spec_decode_pair(bytes: Seq<u8>) -> (Seq<u8>, Seq<u8>) {
    (bytes.subrange(0, 32), bytes.subrange(32, 64))
}

/// The `count` key pairs that `bytes` hold.
pub open spec fn spec_decode_pairs(bytes: Seq<u8>, count: nat) -> Seq<(Seq<u8>, Seq<u8>)> {
    Seq::new(count, |i: int| spec_decode_pair(bytes.subrange(64 * i, 64 * i + 64)))
}

/// The fixed-size fields of a key bundle: 257 bytes.
pub open spec fn spec_encode_bundle_keys(b: BundleView) -> Seq<u8> {
    b.identity_secret + b.identity_public + b.signing_key + b.verifying_key + b.spk_secret
        + b.spk_public + b.spk_signature + seq![
        if b.published {
            1u8
        } else {
            0u8
        },
    ]
}

/// The stored form of a key bundle.
pub open spec fn spec_encode_bundle(b: BundleView) -> Seq<u8> {
    seq![STORE_VERSION] + spec_encode_bundle_keys(b) + spec_u32_bytes(b.opks.len() as int)
        + spec_encode_pairs(b.opks)
}

/// The key bundle that `bytes` hold, if they are a stored key bundle.
pub open spec fn spec_decode_bundle(bytes: Seq<u8>) -> Option<BundleView> {
    if bytes.len() < 262 || bytes[0] != STORE_VERSION || bytes[257] > 1 {
        None
    } else {
        let count = spec_u32_be(bytes.subrange(258, 262));
        if bytes.len() != 262 + 64 * count {
            None
        } else {
            Some(
                BundleView {
                    identity_secret: bytes.subrange(1, 33),
                    identity_public: bytes.subrange(33, 65),
                    signing_key: bytes.subrange(65, 97),
                    verifying_key: bytes.subrange(97, 129),
                    spk_secret: bytes.subrange(129, 161),
                    spk_public: bytes.subrange(161, 193),
                    spk_signature: bytes.subrange(193, 257),
                    published: bytes[257] == 1,
                    opks: spec_decode_pairs(bytes.subrange(262, bytes.len() as int), count as nat),
                },
            )
        }
    }
}

proof fn lemma_pairs_round_trip(opks: Seq<(Seq<u8>, Seq<u8>)>)
    requires
        forall|i: int|
            0 <= i < opks.len() ==> (#[trigger] opks[i]).0.len() == 32 && opks[i].1.len() == 32,
    ensures
        spec_encode_pairs(opks).len() == 64 * opks.len(),
        spec_decode_pairs(spec_encode_pairs(opks), opks.len()) == opks,
    decreases opks.len(),
{
    let b = spec_encode_pairs(opks);
    if opks.len() > 0 {
        let front = opks.drop_last();
        let fb = spec_encode_pairs(front);
        lemma_pairs_round_trip(front);
        let back = spec_decode_pairs(b, opks.len());
        assert forall|i: int| 0 <= i < opks.len() implies back[i] == opks[i] by {
            if i < front.len() {
                assert(spec_decode_pairs(fb, front.len())[i] == front[i]);
            }
        }
    }
}

proof fn lemma_pairs_split(bytes: Seq<u8>, count: nat)
    requires
        count > 0,
        bytes.len() == 64 * count,
    ensures
        spec_decode_pairs(bytes, count).drop_last() == spec_decode_pairs(
            bytes.subrange(0, 64 * (count - 1)),
            (count - 1) as nat,
        ),
        spec_decode_pairs(bytes, count).last() == spec_decode_pair(
            bytes.subrange(64 * (count - 1), 64 * (count as int)),
        ),
        bytes.subrange(0, 64 * (count - 1)) + bytes.subrange(
            64 * (count - 1),
            64 * (count as int),
        ) == bytes,
{
    let pairs = spec_decode_pairs(bytes, count);
    let front_bytes = bytes.subrange(0, 64 * (count - 1));
    let front = spec_decode_pairs(front_bytes, (count - 1) as nat);
    assert forall|i: int| 0 <= i < count - 1 implies pairs.drop_last()[i] == front[i] by {}
}

proof fn lemma_pairs_inverse(bytes: Seq<u8>, count: nat)
    requires
        bytes.len() == 64 * count,
    ensures
        spec_encode_pairs(spec_decode_pairs(bytes, count)) == bytes,
        forall|i: int|
            0 <= i < count ==> (#[trigger] spec_decode_pairs(bytes, count)[i]).0.len() == 32
                && spec_decode_pairs(bytes, count)[i].1.len() == 32,
    decreases count,
{
    let pairs = spec_decode_pairs(bytes, count);
    if count > 0 {
        let front_bytes = bytes.subrange(0, 64 * (count - 1));
        lemma_pairs_split(bytes, count);
        lemma_pairs_inverse(front_bytes, (count - 1) as nat);
        assert(spec_encode_pairs(pairs) == spec_encode_pairs(pairs.drop_last()) + (pairs.last().0
            + pairs.last().1));
    }
}

/// Reading a stored key bundle gives the bundle back, field for field.
pub proof fn lemma_bundle_round_trip(b: BundleView)
    requires
        spec_bundle_ok(b),
    ensures
        spec_decode_bundle(spec_encode_bundle(b)) == Some(b),
{
    let bytes = spec_encode_bundle(b);
    let count = b.opks.len() as int;
    lemma_u32_round_trip(count);
    lemma_pairs_round_trip(b.opks);
    assert(bytes.subrange(262, bytes.len() as int) =~= spec_encode_pairs(b.opks));
    assert(bytes.subrange(1, 33) =~= b.identity_secret);
    assert(bytes.subrange(33, 65) =~= b.identity_public);
    assert(bytes.subrange(65, 97) =~= b.signing_key);
    assert(bytes.subrange(97, 129) =~= b.verifying_key);
    assert(bytes.subrange(129, 161) =~= b.spk_secret);
    assert(bytes.subrange(161, 193) =~= b.spk_public);
    assert(bytes.subrange(193, 257) =~= b.spk_signature);
}

/// Bytes that are a stored key bundle are the stored form of the bundle
/// they hold.
pub proof fn lemma_bundle_decode_inverse(bytes: Seq<u8>)
    requires
        spec_decode_bundle(bytes) is Some,
    ensures
        spec_bundle_ok(spec_decode_bundle(bytes)->0),
        spec_encode_bundle(spec_decode_bundle(bytes)->0) == bytes,
{
    let count = spec_u32_be(bytes.subrange(258, 262));
    lemma_u32_bytes_of_value(bytes.subrange(258, 262));
    lemma_pairs_inverse(bytes.subrange(262, bytes.len() as int), count as nat);
}

impl KeyBundle {
    /// The stored form of the bundle; `None` when it holds more one-time
    /// prekeys than the count field can say.
    pub fn to_bytes(&self) -> (out: Option<Vec<u8>>)
        ensures
            match out {
                Some(bytes) => spec_bundle_ok(self@) && bytes@ == spec_encode_bundle(self@),
                None => !spec_bundle_ok(self@),
            },
    {
        if self.opks.len() > 0xffff_ffff {
            return None;
        }
        let mut keys: Vec<u8> = Vec::new();
        append(&mut keys, &self.identity.secret);
        append(&mut keys, &self.identity.public);
        append(&mut keys, &self.signing_key);
        append(&mut keys, &self.verifying_key);
        append(&mut keys, &self.spk.secret);
        append(&mut keys, &self.spk.public);
        append(&mut keys, &self.spk_signature);
        let ghost before = keys@;
        keys.push(if self.published { 1 } else { 0 });
        assert(keys@ =~= before + seq![
            if self.published {
                1u8
            } else {
                0u8
            },
        ]);

        let ghost pairs = pairs_view(self.opks@);
        let mut list: Vec<u8> = Vec::new();
        let mut i: usize = 0;
        while i < self.opks.len()
            invariant
                i <= self.opks@.len(),
                pairs == pairs_view(self.opks@),
                list@ == spec_encode_pairs(pairs.subrange(0, i as int)),
            decreases self.opks@.len() - i,
        {
            let k = &self.opks[i];
            let mut one: Vec<u8> = Vec::new();
            append(&mut one, &k.secret);
            append(&mut one, &k.public);
            append(&mut list, one.as_slice());
            proof {
                let upto = pairs.subrange(0, i + 1);
                assert(upto.drop_last() =~= pairs.subrange(0, i as int));
            }
            i += 1;
        }
        assert(pairs.subrange(0, i as int) =~= pairs);

        let mut out: Vec<u8> = Vec::new();
        out.push(STORE_VERSION);
        append(&mut out, keys.as_slice());
        put_u32(&mut out, self.opks.len() as u32);
        append(&mut out, list.as_slice());
        Some(out)
    }

    /// The key bundle that `bytes` hold; `None` when they are not a stored
    /// key bundle. The signature is not checked here.
    pub fn from_bytes(bytes: &[u8]) -> (out: Option<KeyBundle>)
        ensures
            match out {
                Some(b) => spec_decode_bundle(bytes@) == Some(b@),
                None => spec_decode_bundle(bytes@) is None,
            },
    {
        let len = bytes.len();
        if len < 262 || bytes[0] != STORE_VERSION || bytes[257] > 1 {
            return None;
        }
        let count = get_u32(bytes, 258) as usize;
        let rest: usize = len - 262;
        if rest % 64 != 0 || rest / 64 != count {
            return None;
        }
        let ghost tail = bytes@.subrange(262, bytes@.len() as int);
        let mut opks: Vec<KeyPair> = Vec::new();
        let mut i: usize = 0;
        while i < count
            invariant
                i <= count,
                len == bytes@.len(),
                262 + 64 * count == len,
                tail == bytes@.subrange(262, bytes@.len() as int),
                opks@.len() == i,
                forall|j: int|
                    0 <= j < i ==> ((#[trigger] opks@[j]).secret@, opks@[j].public@)
                        == spec_decode_pair(tail.subrange(64 * j, 64 * j + 64)),
            decreases count - i,
        {
            let base: usize = 262 + 64 * i;
            let secret = take::<32>(bytes, base);
            let public = take::<32>(bytes, base + 32);
            opks.push(KeyPair { secret, public });
            i += 1;
        }
        assert(pairs_view(opks@) =~= spec_decode_pairs(tail, count as nat));
        Some(
            KeyBundle {
                identity: KeyPair { secret: take::<32>(bytes, 1), public: take::<32>(bytes, 33) },
                signing_key: take::<32>(bytes, 65),
                verifying_key: take::<32>(bytes, 97),
                spk: KeyPair { secret: take::<32>(bytes, 129), public: take::<32>(bytes, 161) },
                spk_signature: take::<64>(bytes, 193),
                opks,
                published: bytes[257] == 1,
            },
        )
    }
}

/// The stored form of a peer's entry: the peer's identity key, then the
/// session. The name is what the entry is filed under.
pub open spec fn spec_encode_peer(p: PeerView) -> Seq<u8> {
    p.peer_ik + spec_encode_session(p.session)
}

/// The entry of the peer `name` that `bytes` hold, if they hold one.
pub open spec fn spec_decode_peer(name: Seq<char>, bytes: Seq<u8>) -> Option<PeerView> {
    if bytes.len() < 32 {
        None
    } else {
        match spec_decode_session(bytes.subrange(32, bytes.len() as int)) {
            Some(s) => Some(PeerView { peer: name, peer_ik: bytes.subrange(0, 32), session: s }),
            None => None,
        }
    }
}

/// Reading a stored entry under its name gives the entry back.
pub proof fn lemma_peer_round_trip(p: PeerView)
    requires
        p.peer_ik.len() == 32,
        spec_session_ok(p.session),
    ensures
        spec_decode_peer(p.peer, spec_encode_peer(p)) == Some(p),
{
    let b = spec_encode_peer(p);
    lemma_session_round_trip(p.session);
    assert(b.subrange(32, b.len() as int) =~= spec_encode_session(p.session));
    assert(b.subrange(0, 32) =~= p.peer_ik);
}

impl PeerSession {
    /// The stored form of the entry; `None` when the session has none.
    pub fn to_bytes(&self) -> (out: Option<Vec<u8>>)
        ensures
            match out {
                Some(bytes) => spec_session_ok(self@.session) && bytes@ == spec_encode_peer(self@),
                None => !spec_session_ok(self@.session),
            },
    {
        match self.session.to_bytes() {
            Some(session) => {
                let mut out: Vec<u8> = Vec::new();
                append(&mut out, &self.peer_ik);
                append(&mut out, session.as_slice());
                Some(out)
            },
            None => None,
        }
    }

    /// The entry of the peer `name` that `bytes` hold; `None` when they
    /// hold none.
    pub fn from_bytes(name: &String, bytes: &[u8]) -> (out: Option<PeerSession>)
        ensures
            match out {
                Some(p) => spec_decode_peer(name@, bytes@) == Some(p@),
                None => spec_decode_peer(name@, bytes@) is None,
            },
    {
        if bytes.len() < 32 {
            return None;
        }
        match Session::from_bytes(vstd::slice::slice_subrange(bytes, 32, bytes.len())) {
            Some(session) => Some(
                PeerSession { peer: name.clone(), peer_ik: take::<32>(bytes, 0), session },
            ),
            None => None,
        }
    }
}

/// Every entry of the list has a stored form.
pub open spec fn spec_peers_ok(peers: Seq<PeerView>) -> bool {
    forall|i: int| 0 <= i < peers.len() ==> spec_session_ok((#[trigger] peers[i]).session)
}

impl SessionManager {
    /// The stored forms of the entries, in order; `None` when one has none.
    fn encode_peers(&self) -> (out: Option<Vec<Vec<u8>>>)
        ensures
            match out {
                Some(blobs) => spec_peers_ok(peers_view(self.peers@)) && blobs@.len()
                    == self.peers@.len() && forall|i: int|
                    0 <= i < blobs@.len() ==> (#[trigger] blobs@[i])@ == spec_encode_peer(
                        self.peers@[i]@,
                    ),
                None => !spec_peers_ok(peers_view(self.peers@)),
            },
    {
        let mut blobs: Vec<Vec<u8>> = Vec::new();
        let mut i: usize = 0;
        while i < self.peers.len()
            invariant
                i <= self.peers@.len(),
                blobs@.len() == i,
                forall|j: int| 0 <= j < i ==> spec_session_ok(self.peers@[j]@.session),
                forall|j: int|
                    0 <= j < i ==> (#[trigger] blobs@[j])@ == spec_encode_peer(self.peers@[j]@),
            decreases self.peers@.len() - i,
        {
            match self.peers[i].to_bytes() {
                Some(blob) => blobs.push(blob),
                None => {
                    assert(peers_view(self.peers@)[i as int] == self.peers@[i as int]@);
                    return None;
                },
            }
            i += 1;
        }
        Some(blobs)
    }

    /// Saves the key bundle and every session in the vault, each session
    /// under its peer's name and in place of one saved under that name
    /// before. Sessions of other peers stay in the vault. Nothing is saved,
    /// and `false` returned, when the bundle or a session has no stored form.
    pub fn save_client(&self, vault: &mut Vault) -> (ok: bool)
        requires
            self.wf(),
            old(vault).wf(),
        ensures
            final(vault).wf(),
            final(vault).owner == old(vault).owner,
            ok == (spec_bundle_ok(self.keys@) && spec_peers_ok(peers_view(self.peers@))),
            !ok ==> *final(vault) == *old(vault),
            ok ==> (final(vault).keys matches Some(b) && b@ == spec_encode_bundle(self.keys@)),
            ok ==> forall|i: int|
                0 <= i < self.peers@.len() ==> final(vault).holds((#[trigger] self.peers@[i]).peer@)
                    && final(vault).blob_of(self.peers@[i].peer@) == spec_encode_peer(
                    self.peers@[i]@,
                ),
            ok ==> forall|other: Seq<char>|
                (forall|i: int| 0 <= i < self.peers@.len() ==> self.peers@[i].peer@ != other)
                    ==> final(vault).holds(other) == old(vault).holds(other) && (old(vault).holds(
                    other,
                ) ==> final(vault).blob_of(other) == old(vault).blob_of(other)),
    {
        let keys = match self.keys.to_bytes() {
            Some(keys) => keys,
            None => { return false; },
        };
        let blobs = match self.encode_peers() {
            Some(blobs) => blobs,
            None => { return false; },
        };
        vault.save_key_bundle(keys.as_slice());
        let mut i: usize = 0;
        while i < self.peers.len()
            invariant
                i <= self.peers@.len(),
                self.wf(),
                vault.wf(),
                vault.owner == old(vault).owner,
                vault.keys matches Some(b) && b@ == spec_encode_bundle(self.keys@),
                blobs@.len() == self.peers@.len(),
                forall|j: int|
                    0 <= j < blobs@.len() ==> (#[trigger] blobs@[j])@ == spec_encode_peer(
                        self.peers@[j]@,
                    ),
                forall|j: int|
                    0 <= j < i ==> vault.holds((#[trigger] self.peers@[j]).peer@) && vault.blob_of(
                        self.peers@[j].peer@,
                    ) == spec_encode_peer(self.peers@[j]@),
                forall|other: Seq<char>|
                    (forall|j: int| 0 <= j < i ==> self.peers@[j].peer@ != other) ==> vault.holds(
                        other,
                    ) == old(vault).holds(other) && (old(vault).holds(other) ==> vault.blob_of(
                        other,
                    ) == old(vault).blob_of(other)),
            decreases self.peers@.len() - i,
        {
            vault.save_session(self.peers[i].peer.as_str(), blobs[i].as_slice());
            i += 1;
        }
        true
    }

    /// Puts a manager together from what the vault holds: the key bundle,
    /// and one session for each record, in the vault's order. `None` when
    /// the vault holds no key bundle or something in it does not decode.
    pub fn load_client(vault: &Vault, max_skip: u32) -> (out: Option<SessionManager>)
        requires
            vault.wf(),
        ensures
            match out {
                Some(m) => {
                    &&& m.wf()
                    &&& m.max_skip == max_skip
                    &&& vault.keys matches Some(b) && spec_decode_bundle(b@) == Some(m.keys@)
                    &&& m.peers@.len() == vault.sessions@.len()
                    &&& forall|i: int|
                        0 <= i < m.peers@.len() ==> spec_decode_peer(
                            vault.sessions@[i].peer@,
                            vault.sessions@[i].blob@,
                        ) == Some((#[trigger] m.peers@[i])@)
                },
                None => vault.keys is None || spec_decode_bundle(vault.keys->0@) is None || exists|
                    i: int,
                |
                    0 <= i < vault.sessions@.len() && spec_decode_peer(
                        (#[trigger] vault.sessions@[i]).peer@,
                        vault.sessions@[i].blob@,
                    ) is None,
            },
    {
        let keys = match &vault.keys {
            Some(b) => match KeyBundle::from_bytes(b.as_slice()) {
                Some(keys) => keys,
                None => { return None; },
            },
            None => { return None; },
        };
        let mut peers: Vec<PeerSession> = Vec::new();
        let mut i: usize = 0;
        while i < vault.sessions.len()
            invariant
                i <= vault.sessions@.len(),
                peers@.len() == i,
                forall|j: int|
                    0 <= j < i ==> spec_decode_peer(
                        vault.sessions@[j].peer@,
                        vault.sessions@[j].blob@,
                    ) == Some((#[trigger] peers@[j])@),
            decreases vault.sessions@.len() - i,
        {
            let record = &vault.sessions[i];
            match PeerSession::from_bytes(&record.peer, record.blob.as_slice()) {
                Some(p) => peers.push(p),
                None => { return None; },
            }
            i += 1;
        }
        let m = SessionManager { keys, peers, max_skip };
        Some(m)
    }
}

/// What was saved from a manager into an empty vault loads again as the
/// same keys and the same sessions, in order.
pub proof fn lemma_saved_client_loads(m: SessionManager, records: Seq<SessionRecord>)
    requires
        spec_peers_ok(peers_view(m.peers@)),
        records.len() == m.peers@.len(),
        forall|i: int|
            0 <= i < records.len() ==> (#[trigger] records[i]).peer@ == m.peers@[i].peer@
                && records[i].blob@ == spec_encode_peer(m.peers@[i]@),
    ensures
        forall|i: int|
            0 <= i < records.len() ==> spec_decode_peer(
                (#[trigger] records[i]).peer@,
                records[i].blob@,
            ) == Some(m.peers@[i]@),
{
    assert forall|i: int| 0 <= i < records.len() implies spec_decode_peer(
        (#[trigger] records[i]).peer@,
        records[i].blob@,
    ) == Some(m.peers@[i]@) by {
        assert(peers_view(m.peers@)[i] == m.peers@[i]@);
        lemma_peer_round_trip(m.peers@[i]@);
    }
}

/// A stored form encrypted under `key`: the nonce, then the sealed bytes.
pub open spec fn spec_protect(key: Seq<u8>, nonce: Seq<u8>, bytes: Seq<u8>) -> Seq<u8> {
    nonce + aead_seal_spec(key, nonce, Seq::empty(), bytes)
}

/// The stored form that `stored` holds under `key`, if it opens.
pub open spec fn spec_unprotect(key: Seq<u8>, stored: Seq<u8>) -> Option<Seq<u8>> {
    if stored.len() < 12 {
        None
    } else {
        aead_open_spec(
            key,
            stored.subrange(0, 12),
            Seq::empty(),
            stored.subrange(12, stored.len() as int),
        )
    }
}

/// Encrypts a stored form under `key` with `nonce`, for keeping it at rest;
/// `None` when it is too long to seal. What comes out opens again under the
/// same key.
pub fn protect_with(key: &[u8; 32], nonce: [u8; 12], bytes: &[u8]) -> (out: Option<Vec<u8>>)
    ensures
        match out {
            Some(stored) => bytes@.len() <= MAX_SEAL_LEN && stored@ == spec_protect(
                key@,
                nonce@,
                bytes@,
            ) && spec_unprotect(key@, stored@) == Some(bytes@),
            None => bytes@.len() > MAX_SEAL_LEN,
        },
{
    if bytes.len() > MAX_SEAL_LEN {
        return None;
    }
    let empty: [u8; 0] = [];
    assert(empty@ =~= Seq::<u8>::empty());
    let sealed = aead_seal(key, &nonce, &empty, bytes);
    let mut out: Vec<u8> = Vec::new();
    append(&mut out, &nonce);
    append(&mut out, sealed.as_slice());
    assert(out@.subrange(0, 12) =~= nonce@);
    assert(out@.subrange(12, out@.len() as int) =~= sealed@);
    Some(out)
}

/// Encrypts a stored form under `key` with a nonce from the operating
/// system; `None` when it gives none or the bytes are too long to seal.
pub fn protect(key: &[u8; 32], bytes: &[u8]) -> (out: Option<Vec<u8>>)
    ensures
        out matches Some(stored) ==> bytes@.len() <= MAX_SEAL_LEN && stored@.len() >= 12
            && stored@ == spec_protect(key@, stored@.subrange(0, 12), bytes@) && spec_unprotect(
            key@,
            stored@,
        ) == Some(bytes@),
        bytes@.len() > MAX_SEAL_LEN ==> out is None,
{
    match random_nonce() {
        Some(nonce) => {
            let out = protect_with(key, nonce, bytes);
            proof {
                if out is Some {
                    assert(out->0@.subrange(0, 12) =~= nonce@);
                }
            }
            out
        },
        None => None,
    }
}

/// Opens what `protect` wrote; `None` when it is too short or does not open
/// under `key`.
pub fn unprotect(key: &[u8; 32], stored: &[u8]) -> (out: Option<Vec<u8>>)
    ensures
        match out {
            Some(bytes) => spec_unprotect(key@, stored@) == Some(bytes@),
            None => spec_unprotect(key@, stored@) is None,
        },
{
    if stored.len() < 12 {
        return None;
    }
    let nonce = take::<12>(stored, 0);
    let empty: [u8; 0] = [];
    assert(empty@ =~= Seq::<u8>::empty());
    aead_open(key, &nonce, &empty, vstd::slice::slice_subrange(stored, 12, stored.len()))
}

} // verus!
