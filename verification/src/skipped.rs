//! The store of skipped message keys: keys of messages that were passed
//! over, kept in the order in which they were banked, oldest dropped first.

use vstd::prelude::*;
use crate::header::{Header, spec_open_header};
use crate::primitives::{spec_message_key, spec_next_chain_key, kdf_ck};

verus! {

/// A banked message key: the header key of its chain, its number in that
/// chain, and the key.
#[derive(Clone, Copy, Debug)]
pub struct SkippedKey {
    pub hk: [u8; 32],
    pub n: u32,
    pub mk: [u8; 32],
}

/// The mathematical view of a banked key.
pub struct SkippedKeyView {
    pub hk: Seq<u8>,
    pub n: nat,
    pub mk: Seq<u8>,
}

impl View for SkippedKey {
    type V = SkippedKeyView;

    open spec fn view(&self) -> SkippedKeyView {
        SkippedKeyView { hk: self.hk@, n: self.n as nat, mk: self.mk@ }
    }
}

/// The view of a store: the views of its entries, oldest first.
pub open spec fn store_view(entries: Seq<SkippedKey>) -> Seq<SkippedKeyView> {
    entries.map_values(|e: SkippedKey| e@)
}

/// Banking `e` in a store that holds at most `cap` keys: the oldest entries
/// make room, and a store without room banks nothing.
pub open spec fn spec_bank(store: Seq<SkippedKeyView>, cap: nat, e: SkippedKeyView) -> Seq<
    SkippedKeyView,
> {
    if cap == 0 {
        store
    } else if store.len() >= cap {
        store.subrange(store.len() - cap + 1, store.len() as int).push(e)
    } else {
        store.push(e)
    }
}

/// Banking the keys of the messages `from..until` of the chain with header
/// key `hk` whose chain key is `ck`: the store afterwards, and the chain key
/// of message `until`.
pub open spec fn spec_skip(
    store: Seq<SkippedKeyView>,
    cap: nat,
    hk: Seq<u8>,
    ck: Seq<u8>,
    from: nat,
    until: nat,
) -> (Seq<SkippedKeyView>, Seq<u8>)
    decreases until - from,
{
    if from >= until {
        (store, ck)
    } else {
        spec_skip(
            spec_bank(store, cap, SkippedKeyView { hk, n: from, mk: spec_message_key(ck) }),
            cap,
            hk,
            spec_next_chain_key(ck),
            from + 1,
            until,
        )
    }
}

/// Whether a banked key is the one for an encrypted header: the header opens
/// under the entry's header key and carries the entry's number.
pub open spec fn spec_entry_matches(e: SkippedKeyView, nonce: Seq<u8>, header_ct: Seq<u8>) -> bool {
    match spec_open_header(e.hk, nonce, header_ct) {
        Some(h) => h.n == e.n,
        None => false,
    }
}

/// The index of the first entry at or after `from` that matches the header.
pub open spec fn spec_find_skipped(
    store: Seq<SkippedKeyView>,
    nonce: Seq<u8>,
    header_ct: Seq<u8>,
    from: nat,
) -> Option<nat>
    decreases store.len() - from,
{
    if from >= store.len() {
        None
    } else if spec_entry_matches(store[from as int], nonce, header_ct) {
        Some(from)
    } else {
        spec_find_skipped(store, nonce, header_ct, from + 1)
    }
}

/// A found index lies in the store, its entry matches, and no entry between
/// `from` and it does.
pub proof fn lemma_find_skipped(store: Seq<SkippedKeyView>, nonce: Seq<u8>, header_ct: Seq<u8>, from: nat)
    ensures
        match spec_find_skipped(store, nonce, header_ct, from) {
            Some(i) => {
                &&& from <= i < store.len()
                &&& spec_entry_matches(store[i as int], nonce, header_ct)
                &&& forall|j: int| from <= j < i ==> !spec_entry_matches(store[j], nonce, header_ct)
            },
            None => forall|j: int|
                from <= j < store.len() ==> !spec_entry_matches(store[j], nonce, header_ct),
        },
    decreases store.len() - from,
{
    if from < store.len() && !spec_entry_matches(store[from as int], nonce, header_ct) {
        lemma_find_skipped(store, nonce, header_ct, from + 1);
    }
}

/// A store never grows past its limit by banking.
pub proof fn lemma_bank_bounded(store: Seq<SkippedKeyView>, cap: nat, e: SkippedKeyView)
    ensures
        store.len() <= cap ==> spec_bank(store, cap, e).len() <= cap,
        cap > 0 ==> spec_bank(store, cap, e).len() <= cap,
        cap > 0 ==> spec_bank(store, cap, e).last() == e,
{
}

/// A store within its limit stays within it while keys are skipped.
pub proof fn lemma_skip_bounded(
    store: Seq<SkippedKeyView>,
    cap: nat,
    hk: Seq<u8>,
    ck: Seq<u8>,
    from: nat,
    until: nat,
)
    requires
        store.len() <= cap,
    ensures
        spec_skip(store, cap, hk, ck, from, until).0.len() <= cap,
    decreases until - from,
{
    if from < until {
        let e = SkippedKeyView { hk, n: from, mk: spec_message_key(ck) };
        lemma_bank_bounded(store, cap, e);
        lemma_skip_bounded(spec_bank(store, cap, e), cap, hk, spec_next_chain_key(ck), from + 1, until);
    }
}

/// Banks `e`, dropping the oldest entries when the store is full.
pub fn bank(entries: &mut Vec<SkippedKey>, cap: usize, e: SkippedKey)
    ensures
        store_view(final(entries)@) == spec_bank(store_view(old(entries)@), cap as nat, e@),
{
    if cap == 0 {
        return;
    }
    let ghost before = entries@;
    // a length fits `usize`, so the count of dropped entries does too
    let held: usize = entries.len();
    let mut dropped: usize = 0;
    while entries.len() >= cap
        invariant
            cap > 0,
            dropped <= before.len(),
            before.len() <= usize::MAX,
            dropped + entries@.len() == before.len(),
            entries@ == before.subrange(dropped as int, before.len() as int),
            dropped == 0 || entries@.len() >= cap - 1,
            before.len() < cap ==> dropped == 0,
            before.len() >= cap ==> dropped <= before.len() - cap + 1,
        decreases entries@.len(),
    {
        entries.remove(0);
        dropped += 1;
    }
    entries.push(e);
}

/// Banks the keys of the messages `from..until` of the receiving chain and
/// returns the chain key of message `until`.
pub fn skip_keys(
    entries: &mut Vec<SkippedKey>,
    cap: usize,
    hk: &[u8; 32],
    ck: &[u8; 32],
    from: u32,
    until: u32,
) -> (out: [u8; 32])
    ensures
        (store_view(final(entries)@), out@) == spec_skip(
            store_view(old(entries)@),
            cap as nat,
            hk@,
            ck@,
            from as nat,
            until as nat,
        ),
{
    let mut chain: [u8; 32] = *ck;
    let mut n: u32 = from;
    while n < until
        invariant
            spec_skip(store_view(entries@), cap as nat, hk@, chain@, n as nat, until as nat)
                == spec_skip(
                store_view(old(entries)@),
                cap as nat,
                hk@,
                ck@,
                from as nat,
                until as nat,
            ),
        decreases until - n,
    {
        let (next, mk) = kdf_ck(&chain);
        bank(entries, cap, SkippedKey { hk: *hk, n, mk });
        chain = next;
        n += 1;
    }
    chain
}

/// The index of the first banked key that matches the encrypted header.
pub fn find_skipped(entries: &Vec<SkippedKey>, nonce: &[u8; 12], header_ct: &[u8]) -> (out: Option<
    usize,
>)
    ensures
        match out {
            Some(i) => spec_find_skipped(store_view(entries@), nonce@, header_ct@, 0) == Some(
                i as nat,
            ) && i < entries@.len(),
            None => spec_find_skipped(store_view(entries@), nonce@, header_ct@, 0) is None,
        },
{
    let mut i: usize = 0;
    while i < entries.len()
        invariant
            i <= entries@.len(),
            spec_find_skipped(store_view(entries@), nonce@, header_ct@, i as nat)
                == spec_find_skipped(store_view(entries@), nonce@, header_ct@, 0),
        decreases entries@.len() - i,
    {
        let e = entries[i];
        match Header::open(&e.hk, nonce, header_ct) {
            Some(h) => {
                if h.n == e.n {
                    return Some(i);
                }
            },
            None => {},
        }
        i += 1;
    }
    None
}

/// A copy of the store.
pub fn copy_store(entries: &Vec<SkippedKey>) -> (out: Vec<SkippedKey>)
    ensures
        out@ == entries@,
{
    let mut out: Vec<SkippedKey> = Vec::new();
    let mut i: usize = 0;
    while i < entries.len()
        invariant
            i <= entries@.len(),
            out@ == entries@.subrange(0, i as int),
        decreases entries@.len() - i,
    {
        out.push(entries[i]);
        i += 1;
    }
    out
}

/// Removes the entry at `i`.
pub fn remove_key(entries: &mut Vec<SkippedKey>, i: usize) -> (out: SkippedKey)
    requires
        i < old(entries)@.len(),
    ensures
        out == old(entries)@[i as int],
        final(entries)@ == old(entries)@.remove(i as int),
        store_view(final(entries)@) == store_view(old(entries)@).remove(i as int),
{
    let out = entries.remove(i);
    out
}

} // verus!
