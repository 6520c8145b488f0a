//! What a client keeps between runs: the history of plaintext messages and
//! the vault of encoded keys and sessions. Both are held in memory here;
//! whoever owns them writes them to durable storage.

use vstd::prelude::*;
use crate::bytes::to_vec;

verus! {

/// One line of the message history.
#[derive(Clone, Debug)]
pub struct StoredText {
    pub sender: String,
    pub receiver: String,
    pub message: String,
}

/// The mathematical view of a line of the history.
pub struct TextView {
    pub sender: Seq<char>,
    pub receiver: Seq<char>,
    pub message: Seq<char>,
}

impl View for StoredText {
    type V = TextView;

    open spec fn view(&self) -> TextView {
        TextView { sender: self.sender@, receiver: self.receiver@, message: self.message@ }
    }
}

/// The views of the lines, in order.
pub open spec fn texts_view(rows: Seq<StoredText>) -> Seq<TextView> {
    rows.map_values(|r: StoredText| r@)
}

/// The view of a line handed out as a triple.
pub open spec fn triple_view(t: (String, String, String)) -> TextView {
    TextView { sender: t.0@, receiver: t.1@, message: t.2@ }
}

/// The views of lines handed out as triples.
pub open spec fn triples_view(rows: Seq<(String, String, String)>) -> Seq<TextView> {
    rows.map_values(|t: (String, String, String)| triple_view(t))
}

/// The lines among the first `n` that `user` sent or received, in order.
pub open spec fn spec_messages_with(rows: Seq<TextView>, user: Seq<char>, n: nat) -> Seq<TextView>
    decreases n,
{
    if n == 0 || n > rows.len() {
        Seq::empty()
    } else {
        let before = spec_messages_with(rows, user, (n - 1) as nat);
        let row = rows[n - 1];
        if row.sender == user || row.receiver == user {
            before.push(row)
        } else {
            before
        }
    }
}

/// The plaintext messages of one user, in the order in which they were
/// stored.
#[derive(Debug)]
pub struct MessageHistory {
    pub owner: String,
    pub rows: Vec<StoredText>,
}

impl MessageHistory {
    /// An empty history for `owner`.
    pub fn new(owner: &str) -> (out: MessageHistory)
        ensures
            out.owner@ == owner@,
            out.rows@.len() == 0,
    {
        MessageHistory { owner: owner.to_owned(), rows: Vec::new() }
    }

    /// Adds a line at the end.
    pub fn insert_message(&mut self, sender: &str, receiver: &str, message: &str)
        ensures
            final(self).owner == old(self).owner,
            texts_view(final(self).rows@) == texts_view(old(self).rows@).push(
                TextView { sender: sender@, receiver: receiver@, message: message@ },
            ),
    {
        self.rows.push(
            StoredText {
                sender: sender.to_owned(),
                receiver: receiver.to_owned(),
                message: message.to_owned(),
            },
        );
        assert(texts_view(self.rows@) =~= texts_view(old(self).rows@).push(
            TextView { sender: sender@, receiver: receiver@, message: message@ },
        ));
    }

    /// The lines that `user` sent or received, oldest first.
    pub fn get_messages_with(&self, user: &str) -> (out: Vec<(String, String, String)>)
        ensures
            triples_view(out@) == spec_messages_with(
                texts_view(self.rows@),
                user@,
                self.rows@.len(),
            ),
    {
        let name: String = user.to_owned();
        let mut out: Vec<(String, String, String)> = Vec::new();
        let mut i: usize = 0;
        while i < self.rows.len()
            invariant
                i <= self.rows@.len(),
                name@ == user@,
                triples_view(out@) == spec_messages_with(texts_view(self.rows@), user@, i as nat),
            decreases self.rows@.len() - i,
        {
            let row = &self.rows[i];
            if row.sender == name || row.receiver == name {
                out.push((row.sender.clone(), row.receiver.clone(), row.message.clone()));
            }
            i += 1;
        }
        out
    }
}

/// An encoded session, filed under the peer's name.
#[derive(Clone, Debug)]
pub struct SessionRecord {
    pub peer: String,
    pub blob: Vec<u8>,
}

/// What is saved of a user's keys and sessions: the encoded key bundle and
/// one encoded session for each peer.
#[derive(Debug)]
pub struct Vault {
    pub owner: String,
    pub keys: Option<Vec<u8>>,
    pub sessions: Vec<SessionRecord>,
}

/// The record of `peer`, in a list that files at most one under each name.
pub open spec fn spec_record_at(sessions: Seq<SessionRecord>, peer: Seq<char>, i: int) -> bool {
    0 <= i < sessions.len() && sessions[i].peer@ == peer
}

impl Vault {
    /// No two records are filed under one name.
    pub open spec fn wf(&self) -> bool {
        forall|i: int, j: int|
            0 <= i < j < self.sessions@.len() ==> self.sessions@[i].peer@ != self.sessions@[j].peer@
    }

    /// Whether a session is saved for `peer`.
    pub open spec fn holds(&self, peer: Seq<char>) -> bool {
        exists|i: int| spec_record_at(self.sessions@, peer, i)
    }

    /// The bytes saved for `peer`.
    pub open spec fn blob_of(&self, peer: Seq<char>) -> Seq<u8> {
        let i = choose|i: int| spec_record_at(self.sessions@, peer, i);
        self.sessions@[i].blob@
    }

    /// Whether no two records are filed under one name.
    pub fn is_wf(&self) -> (out: bool)
        ensures
            out == self.wf(),
    {
        let mut j: usize = 0;
        while j < self.sessions.len()
            invariant
                j <= self.sessions@.len(),
                forall|a: int, b: int|
                    0 <= a < b < j ==> self.sessions@[a].peer@ != self.sessions@[b].peer@,
            decreases self.sessions@.len() - j,
        {
            let mut i: usize = 0;
            while i < j
                invariant
                    i <= j,
                    j < self.sessions@.len(),
                    forall|a: int| 0 <= a < i ==> self.sessions@[a].peer@ != self.sessions@[j as int].peer@,
                decreases j - i,
            {
                if self.sessions[i].peer == self.sessions[j].peer {
                    return false;
                }
                i += 1;
            }
            j += 1;
        }
        true
    }

    /// An empty vault for `owner`.
    pub fn new(owner: &str) -> (out: Vault)
        ensures
            out.owner@ == owner@,
            out.keys is None,
            out.sessions@.len() == 0,
            out.wf(),
    {
        Vault { owner: owner.to_owned(), keys: None, sessions: Vec::new() }
    }

    /// The index of the record of `peer`.
    fn find(&self, peer: &String) -> (out: Option<usize>)
        ensures
            match out {
                Some(i) => spec_record_at(self.sessions@, peer@, i as int),
                None => !self.holds(peer@),
            },
    {
        let mut i: usize = 0;
        while i < self.sessions.len()
            invariant
                i <= self.sessions@.len(),
                forall|j: int| 0 <= j < i ==> self.sessions@[j].peer@ != peer@,
            decreases self.sessions@.len() - i,
        {
            if self.sessions[i].peer == *peer {
                return Some(i);
            }
            i += 1;
        }
        None
    }

    /// Saves the encoded session of `peer`, in place of one saved before.
    pub fn save_session(&mut self, peer: &str, blob: &[u8])
        requires
            old(self).wf(),
        ensures
            final(self).wf(),
            final(self).owner == old(self).owner,
            final(self).keys == old(self).keys,
            final(self).holds(peer@),
            final(self).blob_of(peer@) == blob@,
            forall|other: Seq<char>|
                other != peer@ ==> final(self).holds(other) == old(self).holds(other) && (old(
                    self,
                ).holds(other) ==> final(self).blob_of(other) == old(self).blob_of(other)),
    {
        let name: String = peer.to_owned();
        let record = SessionRecord { peer: peer.to_owned(), blob: to_vec(blob) };
        let ghost before = self.sessions@;
        match self.find(&name) {
            Some(i) => {
                let _ = self.sessions.remove(i);
                self.sessions.insert(i, record);
                assert(spec_record_at(self.sessions@, peer@, i as int));
                proof {
                    lemma_unique_record(self.sessions@, peer@, i as int);
                    assert forall|other: Seq<char>| other != peer@ implies self.holds(other) == old(
                        self,
                    ).holds(other) && (old(self).holds(other) ==> self.blob_of(other) == old(
                        self,
                    ).blob_of(other)) by {
                        if old(self).holds(other) {
                            let k = choose|k: int| spec_record_at(before, other, k);
                            lemma_unique_record(before, other, k);
                            lemma_unique_record(self.sessions@, other, k);
                        }
                        if self.holds(other) {
                            let k = choose|k: int| spec_record_at(self.sessions@, other, k);
                            assert(spec_record_at(before, other, k));
                        }
                    }
                }
            },
            None => {
                self.sessions.push(record);
                let ghost last = before.len() as int;
                proof {
                    assert forall|i: int, j: int| 0 <= i < j < self.sessions@.len() implies self.sessions@[i].peer@
                        != self.sessions@[j].peer@ by {
                        if j == last {
                            assert(!spec_record_at(before, peer@, i));
                        }
                    }
                    lemma_unique_record(self.sessions@, peer@, last);
                    assert forall|other: Seq<char>| other != peer@ implies self.holds(other) == old(
                        self,
                    ).holds(other) && (old(self).holds(other) ==> self.blob_of(other) == old(
                        self,
                    ).blob_of(other)) by {
                        if old(self).holds(other) {
                            let k = choose|k: int| spec_record_at(before, other, k);
                            lemma_unique_record(before, other, k);
                            lemma_unique_record(self.sessions@, other, k);
                        }
                        if self.holds(other) {
                            let k = choose|k: int| spec_record_at(self.sessions@, other, k);
                            assert(spec_record_at(before, other, k));
                        }
                    }
                }
            },
        }
    }

    /// The encoded session saved for `peer`.
    pub fn load_session(&self, peer: &str) -> (out: Option<Vec<u8>>)
        requires
            self.wf(),
        ensures
            match out {
                Some(blob) => self.holds(peer@) && blob@ == self.blob_of(peer@),
                None => !self.holds(peer@),
            },
    {
        let name: String = peer.to_owned();
        match self.find(&name) {
            Some(i) => {
                proof {
                    lemma_unique_record(self.sessions@, peer@, i as int);
                }
                Some(to_vec(self.sessions[i].blob.as_slice()))
            },
            None => None,
        }
    }

    /// Deletes the session saved for `peer`; returns whether there was one.
    pub fn delete_session(&mut self, peer: &str) -> (out: bool)
        requires
            old(self).wf(),
        ensures
            final(self).wf(),
            final(self).owner == old(self).owner,
            final(self).keys == old(self).keys,
            out == old(self).holds(peer@),
            !final(self).holds(peer@),
            forall|other: Seq<char>|
                other != peer@ ==> final(self).holds(other) == old(self).holds(other) && (old(
                    self,
                ).holds(other) ==> final(self).blob_of(other) == old(self).blob_of(other)),
    {
        let name: String = peer.to_owned();
        let ghost before = self.sessions@;
        match self.find(&name) {
            Some(i) => {
                let _ = self.sessions.remove(i);
                proof {
                    let after = self.sessions@;
                    assert forall|other: Seq<char>| other != peer@ implies self.holds(other) == old(
                        self,
                    ).holds(other) && (old(self).holds(other) ==> self.blob_of(other) == old(
                        self,
                    ).blob_of(other)) by {
                        if old(self).holds(other) {
                            let k = choose|k: int| spec_record_at(before, other, k);
                            let dst = if k < i { k } else { k - 1 };
                            assert(spec_record_at(after, other, dst));
                            lemma_unique_record(before, other, k);
                            lemma_unique_record(after, other, dst);
                        }
                        if self.holds(other) {
                            let k = choose|k: int| spec_record_at(after, other, k);
                            let src = if k < i { k } else { k + 1 };
                            assert(spec_record_at(before, other, src));
                        }
                    }
                }
                true
            },
            None => false,
        }
    }

    /// Saves the encoded key bundle, in place of one saved before.
    pub fn save_key_bundle(&mut self, blob: &[u8])
        ensures
            final(self).owner == old(self).owner,
            final(self).sessions == old(self).sessions,
            final(self).keys matches Some(b) && b@ == blob@,
    {
        self.keys = Some(to_vec(blob));
    }

    /// The encoded key bundle, if one was saved.
    pub fn load_key_bundle(&self) -> (out: Option<Vec<u8>>)
        ensures
            match (out, self.keys) {
                (Some(a), Some(b)) => a@ == b@,
                (None, None) => true,
                _ => false,
            },
    {
        match &self.keys {
            Some(b) => Some(to_vec(b.as_slice())),
            None => None,
        }
    }
}

/// In a list that files at most one record under each name, the record of a
/// name is at one index only, and `blob_of` speaks of that one.
pub proof fn lemma_unique_record(sessions: Seq<SessionRecord>, peer: Seq<char>, i: int)
    requires
        spec_record_at(sessions, peer, i),
        forall|a: int, b: int| 0 <= a < b < sessions.len() ==> sessions[a].peer@ != sessions[b].peer@,
    ensures
        forall|k: int| spec_record_at(sessions, peer, k) ==> k == i,
        (choose|k: int| spec_record_at(sessions, peer, k)) == i,
{
}

/// The two stores of a client. Each is absent until the user has logged in.
#[derive(Debug)]
pub struct LocalStores {
    pub messages: Option<MessageHistory>,
    pub vault: Option<Vault>,
}

impl LocalStores {
    /// No store is open.
    pub fn new() -> (out: LocalStores)
        ensures
            out.messages is None,
            out.vault is None,
    {
        LocalStores { messages: None, vault: None }
    }
}

/// Opens the stores of `username`. A store that is open stays as it is; one
/// that is not starts empty.
pub fn initialize_database(stores: &mut LocalStores, username: &str)
    ensures
        match old(stores).messages {
            Some(m) => final(stores).messages == Some(m),
            None => final(stores).messages matches Some(m) && m.owner@ == username@ && m.rows@.len()
                == 0,
        },
        match old(stores).vault {
            Some(v) => final(stores).vault == Some(v),
            None => final(stores).vault matches Some(v) && v.owner@ == username@ && v.keys is None
                && v.sessions@.len() == 0,
        },
{
    if stores.messages.is_none() {
        stores.messages = Some(MessageHistory::new(username));
    }
    if stores.vault.is_none() {
        stores.vault = Some(Vault::new(username));
    }
}

/// What a client is told when a store is used before it was opened.
pub open spec fn not_initialized() -> Seq<char> {
    "Database not initialized"@
}

/// Adds a message to the history. Fails, and changes nothing, when the
/// history was not opened.
pub fn store_message_in_database(
    stores: &mut LocalStores,
    username_sender: &str,
    username_receiver: &str,
    message: &str,
) -> (out: Result<(), String>)
    ensures
        final(stores).vault == old(stores).vault,
        match out {
            Ok(_) => old(stores).messages matches Some(before) && final(stores).messages matches Some(
                after,
            ) && after.owner == before.owner && texts_view(after.rows@) == texts_view(
                before.rows@,
            ).push(
                TextView { sender: username_sender@, receiver: username_receiver@, message: message@ },
            ),
            Err(text) => old(stores).messages is None && final(stores).messages is None && text@
                == not_initialized(),
        },
{
    match &mut stores.messages {
        Some(history) => {
            history.insert_message(username_sender, username_receiver, message);
            Ok(())
        },
        None => Err("Database not initialized".to_owned()),
    }
}

/// The messages that `username_receiver` sent or received, oldest first.
/// Fails when the history was not opened.
pub fn load_messages(stores: &LocalStores, username_receiver: &str) -> (out: Result<
    Vec<(String, String, String)>,
    String,
>)
    ensures
        match out {
            Ok(rows) => stores.messages matches Some(h) && triples_view(rows@)
                == spec_messages_with(texts_view(h.rows@), username_receiver@, h.rows@.len()),
            Err(text) => stores.messages is None && text@ == not_initialized(),
        },
{
    match &stores.messages {
        Some(history) => Ok(history.get_messages_with(username_receiver)),
        None => Err("Database not initialized".to_owned()),
    }
}

} // verus!
