//! What holds of sessions that talk to each other: a message that one side
//! sent is read by the other, in order, out of order and across gaps, and
//! after a ratchet turn.

use vstd::prelude::*;
use crate::errors::Error;
use crate::header::{HeaderView, MAX_MESSAGE_NUMBER, spec_open_header};
use crate::primitives::{aead_open_spec, spec_body_nonce, spec_chain_key, spec_dh, spec_dh_agrees, spec_kdf_rk, spec_message_key, spec_next_chain_key, spec_public_key};
use crate::session::{SessionView, spec_body_ad, spec_close_chain, spec_decrypt, spec_decrypt_ratchet, spec_encrypt, spec_init_as_receiver, spec_init_as_sender, spec_open_body, spec_open_current, spec_receive_in_chain, spec_sealed, spec_turns_ratchet};
use crate::skipped::{SkippedKeyView, lemma_find_skipped, lemma_skip_bounded, spec_bank, spec_entry_matches, spec_find_skipped, spec_skip};
use crate::wire::WireView;

verus! {

/// The keys that a store holds for the chain with header key `hk` and first
/// chain key `c0` are keys of that chain, of messages before `n_r`, one for
/// each number.
pub open spec fn spec_chain_store(store: Seq<SkippedKeyView>, hk: Seq<u8>, c0: Seq<u8>, n_r: nat) -> bool {
    &&& forall|i: int|
        0 <= i < store.len() && (#[trigger] store[i]).hk == hk ==> store[i].n < n_r && store[i].mk
            == spec_message_key(spec_chain_key(c0, store[i].n))
    &&& forall|i: int, j: int|
        0 <= i < j < store.len() && (#[trigger] store[i]).hk == hk && (#[trigger] store[j]).hk == hk
            ==> store[i].n != store[j].n
}

/// Every key of the store belongs to the chain with header key `hk`.
pub open spec fn spec_only_chain(store: Seq<SkippedKeyView>, hk: Seq<u8>) -> bool {
    forall|i: int| 0 <= i < store.len() ==> (#[trigger] store[i]).hk == hk
}

/// The store holds the key of message `n` of the chain with header key `hk`.
pub open spec fn spec_holds_key(store: Seq<SkippedKeyView>, hk: Seq<u8>, n: nat) -> bool {
    exists|i: int| 0 <= i < store.len() && (#[trigger] store[i]).hk == hk && store[i].n == n
}

/// No key that the store holds for another chain matches the header of `w`.
/// A key of another chain matches only if its header key, too, opens the
/// header, which no honest sender brings about.
pub open spec fn spec_no_foreign_match(store: Seq<SkippedKeyView>, hk: Seq<u8>, w: WireView) -> bool {
    forall|i: int|
        0 <= i < store.len() && (#[trigger] store[i]).hk != hk ==> !spec_entry_matches(
            store[i],
            w.header_nonce,
            w.header_ct,
        )
}

/// The receiver `r` reads the chain with header key `hk` and first chain
/// key `c0`: it is at message `r.n_r` of it.
pub open spec fn spec_follows(r: SessionView, hk: Seq<u8>, c0: Seq<u8>) -> bool {
    &&& r.hk_r == Some(hk)
    &&& r.ck_r == Some(spec_chain_key(c0, r.n_r))
    &&& spec_chain_store(r.skipped, hk, c0, r.n_r)
}

/// The sender `s` writes the chain with header key `hk` and first chain key
/// `c0`: it is at message `s.n_s` of it.
pub open spec fn spec_sends_on(s: SessionView, hk: Seq<u8>, c0: Seq<u8>) -> bool {
    &&& s.hk_s == Some(hk)
    &&& s.ck_s == Some(spec_chain_key(c0, s.n_s))
}

proof fn lemma_find_none(store: Seq<SkippedKeyView>, nonce: Seq<u8>, header_ct: Seq<u8>)
    requires
        forall|j: int| 0 <= j < store.len() ==> !spec_entry_matches(store[j], nonce, header_ct),
    ensures
        spec_find_skipped(store, nonce, header_ct, 0) is None,
{
    lemma_find_skipped(store, nonce, header_ct, 0);
}

proof fn lemma_find_exact(store: Seq<SkippedKeyView>, nonce: Seq<u8>, header_ct: Seq<u8>, at: int)
    requires
        0 <= at < store.len(),
        spec_entry_matches(store[at], nonce, header_ct),
        forall|j: int| 0 <= j < at ==> !spec_entry_matches(store[j], nonce, header_ct),
    ensures
        spec_find_skipped(store, nonce, header_ct, 0) == Some(at as nat),
{
    lemma_find_skipped(store, nonce, header_ct, 0);
}

/// Banking the key of message `n` of a chain keeps the store a store of
/// that chain's keys.
pub proof fn lemma_bank_chain_store(store: Seq<SkippedKeyView>, cap: nat, hk: Seq<u8>, c0: Seq<u8>, n: nat)
    requires
        spec_chain_store(store, hk, c0, n),
    ensures
        spec_chain_store(
            spec_bank(
                store,
                cap,
                SkippedKeyView { hk, n, mk: spec_message_key(spec_chain_key(c0, n)) },
            ),
            hk,
            c0,
            n + 1,
        ),
        spec_only_chain(store, hk) ==> spec_only_chain(
            spec_bank(
                store,
                cap,
                SkippedKeyView { hk, n, mk: spec_message_key(spec_chain_key(c0, n)) },
            ),
            hk,
        ),
{
}

/// Skipping the messages `from..until` of a chain leads to the chain key of
/// message `until` and keeps the store a store of that chain's keys.
pub proof fn lemma_skip_chain(
    store: Seq<SkippedKeyView>,
    cap: nat,
    hk: Seq<u8>,
    c0: Seq<u8>,
    from: nat,
    until: nat,
)
    requires
        spec_chain_store(store, hk, c0, from),
        from <= until,
    ensures
        spec_skip(store, cap, hk, spec_chain_key(c0, from), from, until).1 == spec_chain_key(
            c0,
            until,
        ),
        spec_chain_store(
            spec_skip(store, cap, hk, spec_chain_key(c0, from), from, until).0,
            hk,
            c0,
            until,
        ),
        spec_only_chain(store, hk) ==> spec_only_chain(
            spec_skip(store, cap, hk, spec_chain_key(c0, from), from, until).0,
            hk,
        ),
    decreases until - from,
{
    if from < until {
        let e = SkippedKeyView { hk, n: from, mk: spec_message_key(spec_chain_key(c0, from)) };
        lemma_bank_chain_store(store, cap, hk, c0, from);
        lemma_skip_chain(spec_bank(store, cap, e), cap, hk, c0, from + 1, until);
    }
}

/// While the store has room, skipping drops nothing: the keys that were
/// there stay in front, and the keys of the messages `from..until` follow in
/// order.
pub proof fn lemma_skip_keeps(
    store: Seq<SkippedKeyView>,
    cap: nat,
    hk: Seq<u8>,
    c0: Seq<u8>,
    from: nat,
    until: nat,
)
    requires
        from <= until,
        store.len() + (until - from) <= cap,
    ensures
        ({
            let after = spec_skip(store, cap, hk, spec_chain_key(c0, from), from, until).0;
            &&& after.len() == store.len() + (until - from)
            &&& after.subrange(0, store.len() as int) == store
            &&& forall|n: nat|
                from <= n < until ==> #[trigger] after[store.len() + (n - from)] == (SkippedKeyView {
                    hk,
                    n,
                    mk: spec_message_key(spec_chain_key(c0, n)),
                })
        }),
    decreases until - from,
{
    let after = spec_skip(store, cap, hk, spec_chain_key(c0, from), from, until).0;
    if from < until {
        let e = SkippedKeyView { hk, n: from, mk: spec_message_key(spec_chain_key(c0, from)) };
        let next = spec_bank(store, cap, e);
        lemma_skip_keeps(next, cap, hk, c0, from + 1, until);
        assert(after.subrange(0, store.len() as int) =~= store) by {
            assert forall|i: int| 0 <= i < store.len() implies after[i] == store[i] by {
                assert(after.subrange(0, next.len() as int)[i] == next[i]);
            }
        }
        assert forall|n: nat| from <= n < until implies #[trigger] after[store.len() + (n - from)]
            == (SkippedKeyView { hk, n, mk: spec_message_key(spec_chain_key(c0, n)) }) by {
            if n == from {
                assert(after.subrange(0, next.len() as int)[store.len() as int] == next[store.len() as int]);
            } else {
                assert(after[next.len() + (n - (from + 1))] == (SkippedKeyView {
                    hk,
                    n,
                    mk: spec_message_key(spec_chain_key(c0, n)),
                }));
            }
        }
    }
}

/// A message that the sender wrote on a chain is read by a receiver of that
/// chain, whatever was delivered before: the next message, a message
/// further on (within the limit on skipped keys), or an earlier one whose
/// key is still banked. The receiver stays a receiver of the chain, so this
/// holds of every message of a stream in whatever order they arrive.
pub proof fn lemma_chain_delivery(
    r: SessionView,
    s: SessionView,
    hk: Seq<u8>,
    c0: Seq<u8>,
    w: WireView,
    extra: Seq<u8>,
    plaintext: Seq<u8>,
    fresh: Seq<u8>,
)
    requires
        spec_follows(r, hk, c0),
        spec_sends_on(s, hk, c0),
        r.ad == s.ad,
        spec_sealed(s, w, extra, plaintext),
        spec_no_foreign_match(r.skipped, hk, w),
        if s.n_s >= r.n_r {
            s.n_s - r.n_r <= r.max_skip
        } else {
            spec_holds_key(r.skipped, hk, s.n_s)
        },
    ensures
        spec_decrypt(r, w, extra, fresh) is Ok,
        spec_decrypt(r, w, extra, fresh)->Ok_0.1 == plaintext,
        spec_follows(spec_decrypt(r, w, extra, fresh)->Ok_0.0, hk, c0),
        ({
            let r2 = spec_decrypt(r, w, extra, fresh)->Ok_0.0;
            &&& r2 == (SessionView { skipped: r2.skipped, ck_r: r2.ck_r, n_r: r2.n_r, ..r })
            &&& r2.n_r == if s.n_s >= r.n_r {
                s.n_s + 1
            } else {
                r.n_r
            }
            &&& s.n_s >= r.n_r ==> r2.skipped == spec_skip(
                r.skipped,
                r.max_skip,
                hk,
                r.ck_r->0,
                r.n_r,
                s.n_s,
            ).0
            &&& s.n_s < r.n_r ==> exists|at: int|
                0 <= at < r.skipped.len() && (#[trigger] r.skipped[at]).hk == hk && r.skipped[at].n
                    == s.n_s && r2.skipped == r.skipped.remove(at)
            &&& spec_only_chain(r.skipped, hk) ==> spec_only_chain(r2.skipped, hk)
        }),
{
    let h = HeaderView { dh: s.dh_s_public, pn: s.pn, n: s.n_s };
    let store = r.skipped;
    let body_ad = spec_body_ad(r.ad, extra, w.header_ct);
    if s.n_s >= r.n_r {
        lemma_find_none(store, w.header_nonce, w.header_ct);
        lemma_skip_chain(store, r.max_skip, hk, c0, r.n_r, s.n_s);
        let skipped = spec_skip(store, r.max_skip, hk, spec_chain_key(c0, r.n_r), r.n_r, s.n_s);
        assert(spec_open_body(spec_message_key(skipped.1), w.body_nonce, body_ad, w.body) == Some(
            plaintext,
        ));
        assert(spec_receive_in_chain(store, r.max_skip, hk, r.ck_r, r.n_r, h, w, body_ad) == Ok::<
            _,
            Error,
        >((skipped.0, spec_next_chain_key(skipped.1), plaintext)));
    } else {
        let at = choose|i: int| 0 <= i < store.len() && (#[trigger] store[i]).hk == hk && store[i].n == s.n_s;
        lemma_find_exact(store, w.header_nonce, w.header_ct, at);
        let after = store.remove(at);
        assert(spec_chain_store(after, hk, c0, r.n_r)) by {}
    }
}

/// Sending moves the sender one message on in its chain: the counter goes
/// up by one, and the count of the previous chain stays.
pub proof fn lemma_send_advances(
    s: SessionView,
    hk: Seq<u8>,
    c0: Seq<u8>,
    plaintext: Seq<u8>,
    extra: Seq<u8>,
    nonce: Seq<u8>,
)
    requires
        spec_encrypt(s, plaintext, extra, nonce) is Ok,
    ensures
        spec_encrypt(s, plaintext, extra, nonce)->Ok_0.0.n_s == s.n_s + 1,
        spec_encrypt(s, plaintext, extra, nonce)->Ok_0.0.pn == s.pn,
        spec_sends_on(s, hk, c0) ==> spec_sends_on(
            spec_encrypt(s, plaintext, extra, nonce)->Ok_0.0,
            hk,
            c0,
        ),
{
}

/// Receiving leaves the sending side alone, unless the ratchet turns: then
/// the count of the chain that ends becomes the previous-chain count, and
/// the new chain starts at zero.
pub proof fn lemma_receive_keeps_or_turns(
    s: SessionView,
    w: WireView,
    extra: Seq<u8>,
    fresh: Seq<u8>,
)
    requires
        spec_decrypt(s, w, extra, fresh) is Ok,
    ensures
        ({
            let after = spec_decrypt(s, w, extra, fresh)->Ok_0.0;
            if spec_turns_ratchet(s, w) is Some {
                after.n_s == 0 && after.pn == s.n_s
            } else {
                after.n_s == s.n_s && after.pn == s.pn && after.ck_s == s.ck_s && after.hk_s == s.hk_s
            }
        }),
{
}

/// Of two messages that a session sends one after the other, with at most
/// one message received in between, the second has the next number in the
/// same chain, or it is the first of a new chain and carries, as the count
/// of the previous chain, the number that follows the first message's.
pub proof fn lemma_consecutive_sends(
    s: SessionView,
    first: (Seq<u8>, Seq<u8>, Seq<u8>),
    between: Option<(WireView, Seq<u8>, Seq<u8>)>,
    second: (Seq<u8>, Seq<u8>, Seq<u8>),
)
    requires
        spec_encrypt(s, first.0, first.1, first.2) is Ok,
        between matches Some(b) ==> spec_decrypt(
            spec_encrypt(s, first.0, first.1, first.2)->Ok_0.0,
            b.0,
            b.1,
            b.2,
        ) is Ok,
        spec_encrypt(
            spec_state_between(spec_encrypt(s, first.0, first.1, first.2)->Ok_0.0, between),
            second.0,
            second.1,
            second.2,
        ) is Ok,
    ensures
        ({
            let later = spec_state_between(
                spec_encrypt(s, first.0, first.1, first.2)->Ok_0.0,
                between,
            );
            (later.n_s == s.n_s + 1 && later.pn == s.pn) || (later.n_s == 0 && later.pn == s.n_s
                + 1)
        }),
{
    let sent = spec_encrypt(s, first.0, first.1, first.2)->Ok_0.0;
    match between {
        Some(b) => {
            lemma_receive_keeps_or_turns(sent, b.0, b.1, b.2);
        },
        None => {},
    }
}

/// The state after an optional received message.
pub open spec fn spec_state_between(s: SessionView, between: Option<(WireView, Seq<u8>, Seq<u8>)>) -> SessionView {
    match between {
        Some(b) => spec_decrypt(s, b.0, b.1, b.2)->Ok_0.0,
        None => s,
    }
}

/// The receiver `r` will read the sending chain of `s` by a ratchet turn:
/// the header key of that chain is the receiver's next one, the receiver's
/// Diffie-Hellman step leads to the root key, the chain and the next header
/// key of the sender, and the sender's ratchet pair is a pair.
pub open spec fn spec_linked(s: SessionView, r: SessionView) -> bool {
    &&& r.ad == s.ad
    &&& s.hk_s == Some(r.nhk_r)
    &&& s.nhk_r == r.nhk_s
    &&& s.dh_s_secret.len() == 32
    &&& s.dh_s_public == spec_public_key(s.dh_s_secret)
    &&& spec_dh(r.dh_s_secret, s.dh_s_public) is Some
    &&& ({
        let step = spec_kdf_rk(r.rk, spec_dh(r.dh_s_secret, s.dh_s_public)->0);
        step.0 == s.rk && s.ck_s == Some(spec_chain_key(step.1, s.n_s)) && step.2 == s.nhk_s
    })
}

/// The first chain key of the sending chain of `s`, as `r` derives it.
pub open spec fn spec_linked_chain(s: SessionView, r: SessionView) -> Seq<u8> {
    spec_kdf_rk(r.rk, spec_dh(r.dh_s_secret, s.dh_s_public)->0).1
}

/// The store holds no key under the header key `hk`.
pub open spec fn spec_no_key_of(store: Seq<SkippedKeyView>, hk: Seq<u8>) -> bool {
    forall|i: int| 0 <= i < store.len() ==> (#[trigger] store[i]).hk != hk
}

/// After the handshake the responder will read the initiator's first chain
/// by a ratchet turn: both derived the same header keys from the shared
/// secret, and the responder's signed prekey gives it the Diffie-Hellman
/// output of the initiator's ratchet key.
pub proof fn lemma_first_contact(
    sk: Seq<u8>,
    ad: Seq<u8>,
    spk_secret: Seq<u8>,
    dh_secret: Seq<u8>,
    initiator_max_skip: nat,
    responder_max_skip: nat,
)
    requires
        spk_secret.len() == 32,
        dh_secret.len() == 32,
        spec_dh_agrees(dh_secret, spec_public_key(spk_secret)),
        spec_init_as_sender(sk, ad, spec_public_key(spk_secret), dh_secret, initiator_max_skip) is Ok,
    ensures
        spec_linked(
            spec_init_as_sender(
                sk,
                ad,
                spec_public_key(spk_secret),
                dh_secret,
                initiator_max_skip,
            )->Ok_0,
            spec_init_as_receiver(
                sk,
                ad,
                spk_secret,
                spec_public_key(spk_secret),
                responder_max_skip,
            ),
        ),
{
}

/// A message that the sender wrote on a new chain is read by a receiver
/// that is linked to it: the ratchet turns, the receiver reads the sender's
/// chain from then on, and the sender is linked to the receiver's new
/// sending chain in turn.
pub proof fn lemma_ratchet_delivery(
    r: SessionView,
    s: SessionView,
    w: WireView,
    extra: Seq<u8>,
    plaintext: Seq<u8>,
    fresh: Seq<u8>,
)
    requires
        spec_linked(s, r),
        spec_sealed(s, w, extra, plaintext),
        spec_find_skipped(r.skipped, w.header_nonce, w.header_ct, 0) is None,
        spec_open_current(r, w) is None,
        spec_close_chain(r, s.pn) is Ok,
        s.n_s <= r.max_skip,
        fresh.len() == 32,
        spec_dh(fresh, s.dh_s_public) is Some,
        spec_dh_agrees(fresh, s.dh_s_public),
    ensures
        spec_decrypt(r, w, extra, fresh) is Ok,
        spec_decrypt(r, w, extra, fresh)->Ok_0.1 == plaintext,
        ({
            let r2 = spec_decrypt(r, w, extra, fresh)->Ok_0.0;
            let c0 = spec_linked_chain(s, r);
            let closed = spec_close_chain(r, s.pn)->Ok_0;
            &&& r2.hk_r == s.hk_s
            &&& r2.ck_r == Some(spec_chain_key(c0, s.n_s + 1))
            &&& r2.n_r == s.n_s + 1
            &&& r2.dh_r == Some(s.dh_s_public)
            &&& r2.n_s == 0
            &&& r2.pn == r.n_s
            &&& r2.skipped == spec_skip(closed, r.max_skip, r.nhk_r, c0, 0, s.n_s).0
            &&& spec_no_key_of(closed, r.nhk_r) ==> spec_follows(r2, r.nhk_r, c0)
            &&& spec_linked(r2, s)
        }),
{
    let h = HeaderView { dh: s.dh_s_public, pn: s.pn, n: s.n_s };
    let hk = r.nhk_r;
    let c0 = spec_linked_chain(s, r);
    let body_ad = spec_body_ad(r.ad, extra, w.header_ct);
    let closed = spec_close_chain(r, s.pn)->Ok_0;
    let d1 = spec_dh(r.dh_s_secret, h.dh)->0;
    let recv = spec_kdf_rk(r.rk, d1);
    lemma_skip_from_zero(closed, r.max_skip, hk, c0, s.n_s);
    let skipped = spec_skip(closed, r.max_skip, hk, c0, 0, s.n_s);
    assert(spec_open_body(spec_message_key(skipped.1), w.body_nonce, body_ad, w.body) == Some(
        plaintext,
    ));
    assert(spec_receive_in_chain(closed, r.max_skip, hk, Some(recv.1), 0, h, w, body_ad) == Ok::<
        _,
        Error,
    >((skipped.0, spec_next_chain_key(skipped.1), plaintext)));
    if spec_no_key_of(closed, hk) {
        lemma_skip_chain(closed, r.max_skip, hk, c0, 0, s.n_s);
    }
}

proof fn lemma_skip_from_zero(store: Seq<SkippedKeyView>, cap: nat, hk: Seq<u8>, c0: Seq<u8>, until: nat)
    ensures
        spec_skip(store, cap, hk, c0, 0, until).1 == spec_chain_key(c0, until),
{
    lemma_skip_key(store, cap, hk, c0, 0, until);
}

proof fn lemma_skip_key(
    store: Seq<SkippedKeyView>,
    cap: nat,
    hk: Seq<u8>,
    c0: Seq<u8>,
    from: nat,
    until: nat,
)
    requires
        from <= until,
    ensures
        spec_skip(store, cap, hk, spec_chain_key(c0, from), from, until).1 == spec_chain_key(
            c0,
            until,
        ),
    decreases until - from,
{
    if from < until {
        let e = SkippedKeyView { hk, n: from, mk: spec_message_key(spec_chain_key(c0, from)) };
        lemma_skip_key(spec_bank(store, cap, e), cap, hk, c0, from + 1, until);
    }
}

/// The first message of a new session is read by the responder: whichever
/// message of the initiator's first chain arrives first, within the limit
/// on skipped keys, the responder's fresh session reads it by a ratchet
/// turn and then follows that chain.
pub proof fn lemma_first_message(
    sk: Seq<u8>,
    ad: Seq<u8>,
    spk_secret: Seq<u8>,
    dh_secret: Seq<u8>,
    max_skip: nat,
    s: SessionView,
    w: WireView,
    extra: Seq<u8>,
    plaintext: Seq<u8>,
    fresh: Seq<u8>,
)
    requires
        spk_secret.len() == 32,
        dh_secret.len() == 32,
        spec_dh_agrees(dh_secret, spec_public_key(spk_secret)),
        spec_init_as_sender(sk, ad, spec_public_key(spk_secret), dh_secret, s.max_skip) is Ok,
        ({
            let start = spec_init_as_sender(
                sk,
                ad,
                spec_public_key(spk_secret),
                dh_secret,
                s.max_skip,
            )->Ok_0;
            s == (SessionView { ck_s: s.ck_s, n_s: s.n_s, ..start }) && s.ck_s == Some(
                spec_chain_key(start.ck_s->0, s.n_s),
            )
        }),
        spec_sealed(s, w, extra, plaintext),
        s.n_s <= max_skip,
        fresh.len() == 32,
        spec_dh(fresh, s.dh_s_public) is Some,
        spec_dh_agrees(fresh, s.dh_s_public),
    ensures
        ({
            let r0 = spec_init_as_receiver(sk, ad, spk_secret, spec_public_key(spk_secret), max_skip);
            let out = spec_decrypt(r0, w, extra, fresh);
            &&& out is Ok
            &&& out->Ok_0.1 == plaintext
            &&& out->Ok_0.0.n_r == s.n_s + 1
            &&& out->Ok_0.0.dh_r == Some(s.dh_s_public)
            &&& s.n_s == 0 ==> out->Ok_0.0.skipped.len() == 0
            &&& spec_follows(out->Ok_0.0, s.hk_s->0, spec_linked_chain(s, r0))
            &&& spec_linked(out->Ok_0.0, s)
        }),
{
    let spk_public = spec_public_key(spk_secret);
    let r0 = spec_init_as_receiver(sk, ad, spk_secret, spk_public, max_skip);
    lemma_first_contact(sk, ad, spk_secret, dh_secret, s.max_skip, max_skip);
    lemma_ratchet_delivery(r0, s, w, extra, plaintext, fresh);
}

/// A ratchet turn replaces the root key and this side's ratchet secret: the
/// state afterwards holds the root key that two key-derivation steps lead
/// to, the fresh ratchet secret, and the peer's new ratchet key.
pub proof fn lemma_ratchet_replaces_keys(s: SessionView, w: WireView, extra: Seq<u8>, fresh: Seq<u8>)
    requires
        spec_turns_ratchet(s, w) is Some,
        spec_decrypt(s, w, extra, fresh) is Ok,
    ensures
        ({
            let h = spec_turns_ratchet(s, w)->0;
            let after = spec_decrypt(s, w, extra, fresh)->Ok_0.0;
            let recv = spec_kdf_rk(s.rk, spec_dh(s.dh_s_secret, h.dh)->0);
            let send = spec_kdf_rk(recv.0, spec_dh(fresh, h.dh)->0);
            &&& after.rk == send.0
            &&& after.dh_s_secret == fresh
            &&& after.dh_s_public == spec_public_key(fresh)
            &&& after.dh_r == Some(h.dh)
            &&& after.hk_r == Some(s.nhk_r)
            &&& after.hk_s == Some(s.nhk_s)
            &&& after.nhk_r == recv.2
            &&& after.nhk_s == send.2
        }),
{
}

/// One message to send: the plaintext, the caller's associated data and the
/// header nonce.
pub struct Outgoing {
    pub plaintext: Seq<u8>,
    pub extra: Seq<u8>,
    pub nonce: Seq<u8>,
}

/// What sending a stream leaves: the sender's state and the wire messages.
pub struct Sent {
    pub state: SessionView,
    pub wires: Seq<WireView>,
}

/// What receiving a stream leaves: the receiver's state and the plaintexts.
pub struct Received {
    pub state: SessionView,
    pub texts: Seq<Seq<u8>>,
}

/// Sending the messages one after the other, or `None` when one cannot be
/// sent.
pub open spec fn spec_send_all(s: SessionView, msgs: Seq<Outgoing>) -> Option<Sent>
    decreases msgs.len(),
{
    if msgs.len() == 0 {
        Some(Sent { state: s, wires: Seq::empty() })
    } else {
        match spec_send_all(s, msgs.drop_last()) {
            Some(before) => match spec_encrypt(
                before.state,
                msgs.last().plaintext,
                msgs.last().extra,
                msgs.last().nonce,
            ) {
                Ok((after, w)) => Some(Sent { state: after, wires: before.wires.push(w) }),
                Err(_) => None,
            },
            None => None,
        }
    }
}

/// Receiving the wire messages one after the other, each with the
/// associated data of the same place in `extras`, or `None` when one is
/// refused.
pub open spec fn spec_receive_all(
    r: SessionView,
    wires: Seq<WireView>,
    extras: Seq<Seq<u8>>,
    fresh: Seq<u8>,
) -> Option<Received>
    decreases wires.len(),
{
    if wires.len() == 0 {
        Some(Received { state: r, texts: Seq::empty() })
    } else {
        match spec_receive_all(r, wires.drop_last(), extras.drop_last(), fresh) {
            Some(before) => match spec_decrypt(before.state, wires.last(), extras.last(), fresh) {
                Ok((r2, pt)) => Some(Received { state: r2, texts: before.texts.push(pt) }),
                Err(_) => None,
            },
            None => None,
        }
    }
}

/// Every message of the stream opens again under the keys it was sent
/// with: what `Session::encrypt` promises of each message it returns.
pub open spec fn spec_all_sealed(s: SessionView, msgs: Seq<Outgoing>) -> bool
    decreases msgs.len(),
{
    if msgs.len() == 0 {
        true
    } else {
        &&& spec_all_sealed(s, msgs.drop_last())
        &&& spec_send_all(s, msgs.drop_last()) matches Some(before) ==> spec_send_all(
            s,
            msgs,
        ) matches Some(after) ==> spec_sealed(
            before.state,
            after.wires.last(),
            msgs.last().extra,
            msgs.last().plaintext,
        )
    }
}

/// A stream of messages that is delivered in the order in which it was
/// sent comes out as it went in, however long it is: the receiver reads
/// every plaintext, in order, and banks no key.
pub proof fn lemma_in_order_stream(
    r: SessionView,
    s: SessionView,
    hk: Seq<u8>,
    c0: Seq<u8>,
    msgs: Seq<Outgoing>,
    fresh: Seq<u8>,
)
    requires
        spec_follows(r, hk, c0),
        spec_sends_on(s, hk, c0),
        r.ad == s.ad,
        r.n_r == s.n_s,
        spec_only_chain(r.skipped, hk),
        spec_send_all(s, msgs) is Some,
        spec_all_sealed(s, msgs),
    ensures
        ({
            let sent = spec_send_all(s, msgs)->0;
            let got = spec_receive_all(
                r,
                sent.wires,
                msgs.map_values(|m: Outgoing| m.extra),
                fresh,
            );
            &&& sent.wires.len() == msgs.len()
            &&& got is Some
            &&& got->0.texts == msgs.map_values(|m: Outgoing| m.plaintext)
            &&& got->0.state.skipped == r.skipped
            &&& got->0.state.n_r == sent.state.n_s
            &&& got->0.state.ad == sent.state.ad
            &&& spec_follows(got->0.state, hk, c0)
            &&& spec_sends_on(sent.state, hk, c0)
        }),
    decreases msgs.len(),
{
    let extras = msgs.map_values(|m: Outgoing| m.extra);
    if msgs.len() > 0 {
        let front = msgs.drop_last();
        let m = msgs.last();
        lemma_in_order_stream(r, s, hk, c0, front, fresh);
        let before = spec_send_all(s, front)->0;
        let after = spec_send_all(s, msgs)->0;
        let w = after.wires.last();
        assert(after.wires.drop_last() =~= before.wires);
        assert(extras.drop_last() =~= front.map_values(|m: Outgoing| m.extra));
        let r1 = spec_receive_all(r, before.wires, extras.drop_last(), fresh)->0.state;
        lemma_chain_delivery(r1, before.state, hk, c0, w, m.extra, m.plaintext, fresh);
        lemma_send_advances(before.state, hk, c0, m.plaintext, m.extra, m.nonce);
    }
}

/// A store within the session's limit stays within it, whatever is
/// received.
pub proof fn lemma_store_bounded(s: SessionView, w: WireView, extra: Seq<u8>, fresh: Seq<u8>)
    requires
        s.skipped.len() <= s.max_skip,
        spec_decrypt(s, w, extra, fresh) is Ok,
    ensures
        spec_decrypt(s, w, extra, fresh)->Ok_0.0.skipped.len() <= s.max_skip,
        spec_decrypt(s, w, extra, fresh)->Ok_0.0.max_skip == s.max_skip,
{
    match spec_find_skipped(s.skipped, w.header_nonce, w.header_ct, 0) {
        Some(i) => {
            lemma_find_skipped(s.skipped, w.header_nonce, w.header_ct, 0);
        },
        None => match spec_open_current(s, w) {
            Some(h) => {
                lemma_skip_bounded(s.skipped, s.max_skip, s.hk_r->0, s.ck_r->0, s.n_r, h.n);
            },
            None => {
                let h = spec_open_header(s.nhk_r, w.header_nonce, w.header_ct)->0;
                let closed = spec_close_chain(s, h.pn)->Ok_0;
                if s.hk_r is Some && s.ck_r is Some {
                    lemma_skip_bounded(s.skipped, s.max_skip, s.hk_r->0, s.ck_r->0, s.n_r, h.pn);
                }
                let recv = spec_kdf_rk(s.rk, spec_dh(s.dh_s_secret, h.dh)->0);
                lemma_skip_bounded(closed, s.max_skip, s.nhk_r, recv.1, 0, h.n);
            },
        },
    }
}

/// `w` carries `plaintext` as message `n` of the chain with header key `hk`
/// and first chain key `c0`, sent with the associated data `ad`: its header
/// opens under `hk` and holds the number `n`, and its body opens under the
/// message key of that number.
pub open spec fn spec_sealed_on(
    hk: Seq<u8>,
    c0: Seq<u8>,
    ad: Seq<u8>,
    n: nat,
    w: WireView,
    extra: Seq<u8>,
    plaintext: Seq<u8>,
) -> bool {
    let mk = spec_message_key(spec_chain_key(c0, n));
    &&& n <= MAX_MESSAGE_NUMBER
    &&& spec_open_header(hk, w.header_nonce, w.header_ct) is Some
    &&& spec_open_header(hk, w.header_nonce, w.header_ct)->0.n == n
    &&& w.body_nonce == spec_body_nonce(mk)
    &&& aead_open_spec(mk, w.body_nonce, spec_body_ad(ad, extra, w.header_ct), w.body) == Some(
        plaintext,
    )
}

/// What a sender on a chain seals is sealed on that chain at the sender's
/// number.
pub proof fn lemma_sealed_on_chain(
    s: SessionView,
    hk: Seq<u8>,
    c0: Seq<u8>,
    w: WireView,
    extra: Seq<u8>,
    plaintext: Seq<u8>,
)
    requires
        spec_sends_on(s, hk, c0),
        spec_sealed(s, w, extra, plaintext),
    ensures
        spec_sealed_on(hk, c0, s.ad, s.n_s, w, extra, plaintext),
{
}

/// `lemma_chain_delivery` for a message that is given by its chain and its
/// number.
pub proof fn lemma_chain_delivery_on(
    r: SessionView,
    hk: Seq<u8>,
    c0: Seq<u8>,
    n: nat,
    w: WireView,
    extra: Seq<u8>,
    plaintext: Seq<u8>,
    fresh: Seq<u8>,
)
    requires
        spec_follows(r, hk, c0),
        spec_sealed_on(hk, c0, r.ad, n, w, extra, plaintext),
        spec_no_foreign_match(r.skipped, hk, w),
        if n >= r.n_r {
            n - r.n_r <= r.max_skip
        } else {
            spec_holds_key(r.skipped, hk, n)
        },
    ensures
        spec_decrypt(r, w, extra, fresh) is Ok,
        spec_decrypt(r, w, extra, fresh)->Ok_0.1 == plaintext,
        spec_follows(spec_decrypt(r, w, extra, fresh)->Ok_0.0, hk, c0),
        ({
            let r2 = spec_decrypt(r, w, extra, fresh)->Ok_0.0;
            &&& r2 == (SessionView { skipped: r2.skipped, ck_r: r2.ck_r, n_r: r2.n_r, ..r })
            &&& r2.n_r == if n >= r.n_r {
                n + 1
            } else {
                r.n_r
            }
            &&& n >= r.n_r ==> r2.skipped == spec_skip(
                r.skipped,
                r.max_skip,
                hk,
                r.ck_r->0,
                r.n_r,
                n,
            ).0
            &&& n < r.n_r ==> exists|at: int|
                0 <= at < r.skipped.len() && (#[trigger] r.skipped[at]).hk == hk && r.skipped[at].n
                    == n && r2.skipped == r.skipped.remove(at)
            &&& spec_only_chain(r.skipped, hk) ==> spec_only_chain(r2.skipped, hk)
        }),
{
    let h = spec_open_header(hk, w.header_nonce, w.header_ct)->0;
    let s = SessionView {
        hk_s: Some(hk),
        ck_s: Some(spec_chain_key(c0, n)),
        n_s: n,
        pn: h.pn,
        dh_s_public: h.dh,
        ..r
    };
    lemma_chain_delivery(r, s, hk, c0, w, extra, plaintext, fresh);
}

/// Receiving the wire messages with the numbers `order`, one after the
/// other, or `None` when one is refused.
pub open spec fn spec_receive_order(
    r: SessionView,
    order: Seq<int>,
    wires: Seq<WireView>,
    extras: Seq<Seq<u8>>,
    fresh: Seq<u8>,
) -> Option<Received>
    decreases order.len(),
{
    if order.len() == 0 {
        Some(Received { state: r, texts: Seq::empty() })
    } else {
        match spec_receive_order(r, order.drop_last(), wires, extras, fresh) {
            Some(before) => match spec_decrypt(
                before.state,
                wires[order.last()],
                extras[order.last()],
                fresh,
            ) {
                Ok((r2, pt)) => Some(Received { state: r2, texts: before.texts.push(pt) }),
                Err(_) => None,
            },
            None => None,
        }
    }
}

/// A stream of `texts.len()` messages of one chain, the first with the
/// number `base`: message `i` carries `texts[i]` and is sealed on the chain
/// at `base + i`.
pub open spec fn spec_stream(
    hk: Seq<u8>,
    c0: Seq<u8>,
    ad: Seq<u8>,
    base: nat,
    wires: Seq<WireView>,
    extras: Seq<Seq<u8>>,
    texts: Seq<Seq<u8>>,
) -> bool {
    &&& wires.len() == texts.len()
    &&& extras.len() == texts.len()
    &&& forall|i: int|
        0 <= i < texts.len() ==> spec_sealed_on(
            hk,
            c0,
            ad,
            (base + i) as nat,
            #[trigger] wires[i],
            extras[i],
            texts[i],
        )
}

/// How far a delivery order reaches: one more than the largest number in
/// it, and zero for the empty order.
pub open spec fn spec_reach(order: Seq<int>) -> int
    decreases order.len(),
{
    if order.len() == 0 {
        0
    } else if order.last() + 1 > spec_reach(order.drop_last()) {
        order.last() + 1
    } else {
        spec_reach(order.drop_last())
    }
}

/// The delivery order names messages of the stream, none of them twice.
pub open spec fn spec_schedule(order: Seq<int>, count: nat) -> bool {
    &&& forall|k: int| 0 <= k < order.len() ==> 0 <= #[trigger] order[k] < count
    &&& forall|k: int, l: int| 0 <= k < l < order.len() ==> order[k] != order[l]
}

/// The delivery order stays within a window of `cap` messages: at no time
/// are more than `cap` messages passed over and not yet delivered.
pub open spec fn spec_window(order: Seq<int>, cap: nat) -> bool
    decreases order.len(),
{
    order.len() == 0 || (spec_window(order.drop_last(), cap) && spec_reach(order) - order.len()
        <= cap)
}

/// The delivery order goes forward only, and passes over at most `cap`
/// messages at a time.
pub open spec fn spec_forward(order: Seq<int>, cap: nat) -> bool {
    &&& order.len() > 0 ==> 0 <= order[0] <= cap
    &&& forall|k: int|
        0 <= k < order.len() - 1 ==> order[k] < #[trigger] order[k + 1] && order[k + 1] - order[k]
            - 1 <= cap
}

/// Messages that were passed over and not delivered have their keys in the
/// store.
pub open spec fn spec_banked(
    store: Seq<SkippedKeyView>,
    hk: Seq<u8>,
    base: nat,
    order: Seq<int>,
) -> bool {
    forall|i: int|
        0 <= i < spec_reach(order) && !order.contains(i) ==> #[trigger] spec_holds_key(
            store,
            hk,
            (base + i) as nat,
        )
}

proof fn lemma_reach(order: Seq<int>)
    ensures
        forall|k: int| 0 <= k < order.len() ==> #[trigger] order[k] < spec_reach(order),
    decreases order.len(),
{
    if order.len() > 0 {
        let front = order.drop_last();
        lemma_reach(front);
        assert forall|k: int| 0 <= k < order.len() implies #[trigger] order[k] < spec_reach(order) by {
            if k < front.len() {
                assert(front[k] == order[k]);
            }
        }
    }
}

/// Messages of one chain that arrive in any order are all read, each with
/// its own plaintext, as long as the order stays within the window that the
/// store of skipped keys allows.
pub proof fn lemma_reordered_stream(
    r: SessionView,
    hk: Seq<u8>,
    c0: Seq<u8>,
    wires: Seq<WireView>,
    extras: Seq<Seq<u8>>,
    texts: Seq<Seq<u8>>,
    order: Seq<int>,
    fresh: Seq<u8>,
)
    requires
        spec_follows(r, hk, c0),
        r.skipped.len() == 0,
        spec_stream(hk, c0, r.ad, r.n_r, wires, extras, texts),
        spec_schedule(order, texts.len()),
        spec_window(order, r.max_skip),
    ensures
        ({
            let got = spec_receive_order(r, order, wires, extras, fresh);
            &&& got is Some
            &&& got->0.texts.len() == order.len()
            &&& forall|k: int| 0 <= k < order.len() ==> #[trigger] got->0.texts[k] == texts[order[k]]
            &&& spec_follows(got->0.state, hk, c0)
            &&& spec_only_chain(got->0.state.skipped, hk)
            &&& got->0.state == (SessionView {
                skipped: got->0.state.skipped,
                ck_r: got->0.state.ck_r,
                n_r: got->0.state.n_r,
                ..r
            })
            &&& got->0.state.n_r == r.n_r + spec_reach(order)
            &&& got->0.state.skipped.len() == spec_reach(order) - order.len()
            &&& spec_banked(got->0.state.skipped, hk, r.n_r, order)
        }),
    decreases order.len(),
{
    let base = r.n_r;
    if order.len() > 0 {
        let front = order.drop_last();
        let j = order.last();
        lemma_reordered_stream(r, hk, c0, wires, extras, texts, front, fresh);
        lemma_reach(front);
        let before = spec_receive_order(r, front, wires, extras, fresh)->0;
        let r1 = before.state;
        let reach1 = spec_reach(front);
        let n = (base + j) as nat;
        let w = wires[j];
        if j >= reach1 {
            lemma_skip_keeps(r1.skipped, r1.max_skip, hk, c0, r1.n_r, n);
        }
        lemma_chain_delivery_on(r1, hk, c0, n, w, extras[j], texts[j], fresh);
        let got = spec_receive_order(r, order, wires, extras, fresh)->0;
        let r2 = got.state;
        assert forall|i: int| 0 <= i < spec_reach(order) && !order.contains(i) implies #[trigger] spec_holds_key(
            r2.skipped,
            hk,
            (base + i) as nat,
        ) by {
            if j >= reach1 {
                if i < reach1 {
                    assert(spec_holds_key(r1.skipped, hk, (base + i) as nat));
                } else {
                    let m = (base + i) as nat;
                    let at = r1.skipped.len() + (m - r1.n_r);
                    assert(r2.skipped[at] == (SkippedKeyView {
                        hk,
                        n: m,
                        mk: spec_message_key(spec_chain_key(c0, m)),
                    }));
                }
            } else {
                assert(spec_holds_key(r1.skipped, hk, (base + i) as nat));
                let at = choose|at: int|
                    0 <= at < r1.skipped.len() && (#[trigger] r1.skipped[at]).hk == hk
                        && r1.skipped[at].n == (base + i) as nat;
                let gone = choose|gone: int|
                    0 <= gone < r1.skipped.len() && (#[trigger] r1.skipped[gone]).hk == hk
                        && r1.skipped[gone].n == n && r2.skipped == r1.skipped.remove(gone);
                let to = if at < gone { at } else { at - 1 };
                assert(r2.skipped[to] == r1.skipped[at]);
            }
        }
    }
}

/// Messages of one chain that arrive in the order in which they were sent,
/// with any of them missing, are all read, each with its own plaintext, as
/// long as no more are missing in a row than the session may skip.
pub proof fn lemma_stream_with_drops(
    r: SessionView,
    hk: Seq<u8>,
    c0: Seq<u8>,
    wires: Seq<WireView>,
    extras: Seq<Seq<u8>>,
    texts: Seq<Seq<u8>>,
    order: Seq<int>,
    fresh: Seq<u8>,
)
    requires
        spec_follows(r, hk, c0),
        spec_only_chain(r.skipped, hk),
        spec_stream(hk, c0, r.ad, r.n_r, wires, extras, texts),
        forall|k: int| 0 <= k < order.len() ==> 0 <= #[trigger] order[k] < texts.len(),
        spec_forward(order, r.max_skip),
    ensures
        ({
            let got = spec_receive_order(r, order, wires, extras, fresh);
            &&& got is Some
            &&& got->0.texts.len() == order.len()
            &&& forall|k: int| 0 <= k < order.len() ==> #[trigger] got->0.texts[k] == texts[order[k]]
            &&& spec_follows(got->0.state, hk, c0)
            &&& spec_only_chain(got->0.state.skipped, hk)
            &&& got->0.state == (SessionView {
                skipped: got->0.state.skipped,
                ck_r: got->0.state.ck_r,
                n_r: got->0.state.n_r,
                ..r
            })
            &&& got->0.state.n_r == if order.len() == 0 {
                r.n_r as int
            } else {
                r.n_r + order.last() + 1
            }
        }),
    decreases order.len(),
{
    let base = r.n_r;
    if order.len() > 0 {
        let front = order.drop_last();
        let j = order.last();
        lemma_stream_with_drops(r, hk, c0, wires, extras, texts, front, fresh);
        let before = spec_receive_order(r, front, wires, extras, fresh)->0;
        let r1 = before.state;
        let n = (base + j) as nat;
        let w = wires[j];
        lemma_chain_delivery_on(r1, hk, c0, n, w, extras[j], texts[j], fresh);
    }
}

} // verus!
