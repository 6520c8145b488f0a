//! The server's side of the protocol: accounts, who is logged in from
//! where, the directory of published keys, and the mailbox of messages that
//! wait for their receivers. One function takes a request and says what the
//! server answers and what it keeps.

use vstd::prelude::*;
use crate::protocol::{Action, ActionView, ResponseView, ServerResponse, StoredMessage, StoredMessageView, copy_message, messages_view, names_view};

verus! {

/// A user and the password hash it registered with.
#[derive(Debug)]
pub struct Account {
    pub username: String,
    pub password: String,
}

/// A user that is logged in, and the address it logged in from.
#[derive(Debug)]
pub struct Login {
    pub address: String,
    pub username: String,
}

/// The keys that a user published.
#[derive(Debug)]
pub struct UserKeys {
    pub username: String,
    pub ik: [u8; 32],
    pub spk: [u8; 32],
    pub signature: [[u8; 32]; 2],
    pub verifying_key: [u8; 32],
    pub opks: Vec<[u8; 32]>,
}

/// A message that waits for its receiver.
#[derive(Debug)]
pub struct Mail {
    pub receiver: String,
    pub message: StoredMessage,
}

/// Everything the server keeps.
#[derive(Debug)]
pub struct ServerState {
    pub accounts: Vec<Account>,
    pub keys: Vec<UserKeys>,
    pub mailbox: Vec<Mail>,
    pub logins: Vec<Login>,
}

pub struct AccountView {
    pub username: Seq<char>,
    pub password: Seq<char>,
}

pub struct LoginView {
    pub address: Seq<char>,
    pub username: Seq<char>,
}

pub struct UserKeysView {
    pub username: Seq<char>,
    pub ik: [u8; 32],
    pub spk: [u8; 32],
    pub signature: [[u8; 32]; 2],
    pub verifying_key: [u8; 32],
    pub opks: Seq<[u8; 32]>,
}

pub struct MailView {
    pub receiver: Seq<char>,
    pub message: StoredMessageView,
}

/// The mathematical view of the server's state.
pub struct ServerView {
    pub accounts: Seq<AccountView>,
    pub keys: Seq<UserKeysView>,
    pub mailbox: Seq<MailView>,
    pub logins: Seq<LoginView>,
}

impl View for Account {
    type V = AccountView;

    open spec fn view(&self) -> AccountView {
        AccountView { username: self.username@, password: self.password@ }
    }
}

impl View for Login {
    type V = LoginView;

    open spec fn view(&self) -> LoginView {
        LoginView { address: self.address@, username: self.username@ }
    }
}

impl View for UserKeys {
    type V = UserKeysView;

    open spec fn view(&self) -> UserKeysView {
        UserKeysView {
            username: self.username@,
            ik: self.ik,
            spk: self.spk,
            signature: self.signature,
            verifying_key: self.verifying_key,
            opks: self.opks@,
        }
    }
}

impl View for Mail {
    type V = MailView;

    open spec fn view(&self) -> MailView {
        MailView { receiver: self.receiver@, message: self.message@ }
    }
}

impl View for ServerState {
    type V = ServerView;

    open spec fn view(&self) -> ServerView {
        ServerView {
            accounts: self.accounts@.map_values(|a: Account| a@),
            keys: self.keys@.map_values(|k: UserKeys| k@),
            mailbox: self.mailbox@.map_values(|m: Mail| m@),
            logins: self.logins@.map_values(|l: Login| l@),
        }
    }
}

/// The index of the first account at or after `from` with the name.
pub open spec fn spec_find_account(accounts: Seq<AccountView>, username: Seq<char>, from: nat) -> Option<
    nat,
>
    decreases accounts.len() - from,
{
    if from >= accounts.len() {
        None
    } else if accounts[from as int].username == username {
        Some(from)
    } else {
        spec_find_account(accounts, username, from + 1)
    }
}

/// The index of the first published keys at or after `from` with the name.
pub open spec fn spec_find_keys(keys: Seq<UserKeysView>, username: Seq<char>, from: nat) -> Option<nat>
    decreases keys.len() - from,
{
    if from >= keys.len() {
        None
    } else if keys[from as int].username == username {
        Some(from)
    } else {
        spec_find_keys(keys, username, from + 1)
    }
}

/// The index of the first login at or after `from` from the address.
pub open spec fn spec_find_login(logins: Seq<LoginView>, address: Seq<char>, from: nat) -> Option<nat>
    decreases logins.len() - from,
{
    if from >= logins.len() {
        None
    } else if logins[from as int].address == address {
        Some(from)
    } else {
        spec_find_login(logins, address, from + 1)
    }
}

/// The user that is logged in from the address.
pub open spec fn spec_user_at(s: ServerView, address: Seq<char>) -> Option<Seq<char>> {
    match spec_find_login(s.logins, address, 0) {
        Some(i) => Some(s.logins[i as int].username),
        None => None,
    }
}

/// The names, among the first `n` published, of the users other than `me`.
pub open spec fn spec_other_users(keys: Seq<UserKeysView>, me: Seq<char>, n: nat) -> Seq<Seq<char>>
    decreases n,
{
    if n == 0 || n > keys.len() {
        Seq::empty()
    } else {
        let before = spec_other_users(keys, me, (n - 1) as nat);
        if keys[n - 1].username != me {
            before.push(keys[n - 1].username)
        } else {
            before
        }
    }
}

/// The messages for `me` among the first `n` of the mailbox, in order.
pub open spec fn spec_mail_for(mailbox: Seq<MailView>, me: Seq<char>, n: nat) -> Seq<
    StoredMessageView,
>
    decreases n,
{
    if n == 0 || n > mailbox.len() {
        Seq::empty()
    } else {
        let before = spec_mail_for(mailbox, me, (n - 1) as nat);
        if mailbox[n - 1].receiver == me {
            before.push(mailbox[n - 1].message)
        } else {
            before
        }
    }
}

/// What stays of the first `n` entries of the mailbox when the messages for
/// `me` are handed out.
pub open spec fn spec_mail_left(mailbox: Seq<MailView>, me: Seq<char>, n: nat) -> Seq<MailView>
    decreases n,
{
    if n == 0 || n > mailbox.len() {
        Seq::empty()
    } else {
        let before = spec_mail_left(mailbox, me, (n - 1) as nat);
        if mailbox[n - 1].receiver != me {
            before.push(mailbox[n - 1])
        } else {
            before
        }
    }
}

/// The response that reports success or failure.
pub open spec fn spec_status(success: bool) -> ResponseView {
    ResponseView::ResponseStatus { success }
}

/// What the server does with the request of a user that is logged in.
pub open spec fn spec_handle_as(s: ServerView, request: ActionView, me: Seq<char>) -> (
    ServerView,
    ResponseView,
) {
    match request {
        ActionView::GetAllUsers => (
            s,
            ResponseView::UserList { result: spec_other_users(s.keys, me, s.keys.len()) },
        ),
        ActionView::GetMessages => {
            let mine = spec_mail_for(s.mailbox, me, s.mailbox.len());
            if mine.len() > 0 {
                (
                    ServerView { mailbox: spec_mail_left(s.mailbox, me, s.mailbox.len()), ..s },
                    ResponseView::Messages { success: true, new_messages: true, messages: Some(mine) },
                )
            } else {
                (s, ResponseView::Messages { success: true, new_messages: false, messages: None })
            }
        },
        ActionView::PublishX3DHInformation { ik, spk, opk_bundle, signature, verifying_key } => {
            if spec_find_keys(s.keys, me, 0) is Some {
                (s, spec_status(false))
            } else {
                (
                    ServerView {
                        keys: s.keys.push(
                            UserKeysView {
                                username: me,
                                ik,
                                spk,
                                signature,
                                verifying_key,
                                opks: opk_bundle,
                            },
                        ),
                        ..s
                    },
                    spec_status(true),
                )
            }
        },
        ActionView::UpdateX3DHSignedPreKey { spk, signature, verifying_key } => {
            match spec_find_keys(s.keys, me, 0) {
                Some(i) => (
                    ServerView {
                        keys: s.keys.update(
                            i as int,
                            UserKeysView { spk, signature, verifying_key, ..s.keys[i as int] },
                        ),
                        ..s
                    },
                    spec_status(true),
                ),
                None => (s, spec_status(false)),
            }
        },
        ActionView::SupplyX3DHOneTimePreKeyBundle { opk_bundle } => {
            match spec_find_keys(s.keys, me, 0) {
                Some(i) => (
                    ServerView {
                        keys: s.keys.update(
                            i as int,
                            UserKeysView { opks: s.keys[i as int].opks + opk_bundle, ..s.keys[i as int] },
                        ),
                        ..s
                    },
                    spec_status(true),
                ),
                None => (s, spec_status(false)),
            }
        },
        ActionView::GetUserPublicKeys { username } => {
            match spec_find_keys(s.keys, username, 0) {
                Some(i) => {
                    let k = s.keys[i as int];
                    if k.opks.len() > 0 {
                        (
                            ServerView {
                                keys: s.keys.update(
                                    i as int,
                                    UserKeysView { opks: k.opks.drop_first(), ..k },
                                ),
                                ..s
                            },
                            ResponseView::UserPublicKeys {
                                ik: k.ik,
                                spk: k.spk,
                                opk: Some(k.opks[0]),
                                signature: k.signature,
                                verifying_key: k.verifying_key,
                            },
                        )
                    } else {
                        (
                            s,
                            ResponseView::UserPublicKeys {
                                ik: k.ik,
                                spk: k.spk,
                                opk: None,
                                signature: k.signature,
                                verifying_key: k.verifying_key,
                            },
                        )
                    }
                },
                None => (s, spec_status(false)),
            }
        },
        ActionView::SendMessage { username_receiver, message } => {
            if spec_find_keys(s.keys, username_receiver, 0) is Some && username_receiver != me {
                (
                    ServerView {
                        mailbox: s.mailbox.push(
                            MailView {
                                receiver: username_receiver,
                                message: StoredMessageView { sender: me, ..message },
                            },
                        ),
                        ..s
                    },
                    spec_status(true),
                )
            } else {
                (s, spec_status(false))
            }
        },
        _ => (s, spec_status(false)),
    }
}

/// What the server does with a request from `address`: the state afterwards
/// and the response. Registering needs no login; logging in needs an
/// account with that password and an address that is not logged in; every
/// other request needs a login and is refused without one.
pub open spec fn spec_handle(s: ServerView, request: ActionView, address: Seq<char>) -> (
    ServerView,
    ResponseView,
) {
    match request {
        ActionView::NewUser { username, password } => {
            if spec_find_account(s.accounts, username, 0) is Some {
                (s, spec_status(false))
            } else {
                (
                    ServerView { accounts: s.accounts.push(AccountView { username, password }), ..s },
                    spec_status(true),
                )
            }
        },
        ActionView::LogIn { username, password } => {
            if spec_find_login(s.logins, address, 0) is Some {
                (s, spec_status(false))
            } else {
                match spec_find_account(s.accounts, username, 0) {
                    Some(i) => if s.accounts[i as int].password == password {
                        (
                            ServerView { logins: s.logins.push(LoginView { address, username }), ..s },
                            spec_status(true),
                        )
                    } else {
                        (s, spec_status(false))
                    },
                    None => (s, spec_status(false)),
                }
            }
        },
        ActionView::LogOut => match spec_find_login(s.logins, address, 0) {
            Some(i) => (ServerView { logins: s.logins.remove(i as int), ..s }, spec_status(true)),
            None => (s, spec_status(false)),
        },
        other => match spec_user_at(s, address) {
            Some(me) => spec_handle_as(s, other, me),
            None => (s, spec_status(false)),
        },
    }
}

/// The response that reports success or failure.
fn status(success: bool) -> (out: ServerResponse)
    ensures
        out@ == spec_status(success),
{
    ServerResponse::ResponseStatus { success }
}

impl ServerState {
    /// A server that knows nobody.
    pub fn new() -> (out: ServerState)
        ensures
            out@.accounts.len() == 0,
            out@.keys.len() == 0,
            out@.mailbox.len() == 0,
            out@.logins.len() == 0,
    {
        ServerState { accounts: Vec::new(), keys: Vec::new(), mailbox: Vec::new(), logins: Vec::new() }
    }

    /// The index of the account of `username`.
    pub fn find_account(&self, username: &String) -> (out: Option<usize>)
        ensures
            match out {
                Some(i) => spec_find_account(self@.accounts, username@, 0) == Some(i as nat) && i
                    < self.accounts@.len(),
                None => spec_find_account(self@.accounts, username@, 0) is None,
            },
    {
        let mut i: usize = 0;
        while i < self.accounts.len()
            invariant
                i <= self.accounts@.len(),
                spec_find_account(self@.accounts, username@, i as nat) == spec_find_account(
                    self@.accounts,
                    username@,
                    0,
                ),
            decreases self.accounts@.len() - i,
        {
            if self.accounts[i].username == *username {
                return Some(i);
            }
            i += 1;
        }
        None
    }

    /// The index of the keys that `username` published.
    pub fn find_keys(&self, username: &String) -> (out: Option<usize>)
        ensures
            match out {
                Some(i) => spec_find_keys(self@.keys, username@, 0) == Some(i as nat) && i
                    < self.keys@.len(),
                None => spec_find_keys(self@.keys, username@, 0) is None,
            },
    {
        let mut i: usize = 0;
        while i < self.keys.len()
            invariant
                i <= self.keys@.len(),
                spec_find_keys(self@.keys, username@, i as nat) == spec_find_keys(
                    self@.keys,
                    username@,
                    0,
                ),
            decreases self.keys@.len() - i,
        {
            if self.keys[i].username == *username {
                return Some(i);
            }
            i += 1;
        }
        None
    }

    /// The index of the login from `address`.
    pub fn find_login(&self, address: &String) -> (out: Option<usize>)
        ensures
            match out {
                Some(i) => spec_find_login(self@.logins, address@, 0) == Some(i as nat) && i
                    < self.logins@.len(),
                None => spec_find_login(self@.logins, address@, 0) is None,
            },
    {
        let mut i: usize = 0;
        while i < self.logins.len()
            invariant
                i <= self.logins@.len(),
                spec_find_login(self@.logins, address@, i as nat) == spec_find_login(
                    self@.logins,
                    address@,
                    0,
                ),
            decreases self.logins@.len() - i,
        {
            if self.logins[i].address == *address {
                return Some(i);
            }
            i += 1;
        }
        None
    }

    /// The user that is logged in from `address`.
    pub fn user_at(&self, address: &String) -> (out: Option<String>)
        ensures
            match out {
                Some(name) => spec_user_at(self@, address@) == Some(name@),
                None => spec_user_at(self@, address@) is None,
            },
    {
        match self.find_login(address) {
            Some(i) => {
                Some(self.logins[i].username.clone())
            },
            None => None,
        }
    }

    fn new_user(&mut self, username: String, password: String) -> (out: ServerResponse)
        ensures
            (final(self)@, out@) == spec_handle(
                old(self)@,
                ActionView::NewUser { username: username@, password: password@ },
                Seq::empty(),
            ),
    {
        if self.find_account(&username).is_some() {
            return status(false);
        }
        self.accounts.push(Account { username, password });
        assert(self@.accounts =~= old(self)@.accounts.push(
            AccountView { username: username@, password: password@ },
        ));
        status(true)
    }

    fn log_in(&mut self, address: &String, username: String, password: String) -> (out:
        ServerResponse)
        ensures
            (final(self)@, out@) == spec_handle(
                old(self)@,
                ActionView::LogIn { username: username@, password: password@ },
                address@,
            ),
    {
        if self.find_login(address).is_some() {
            return status(false);
        }
        match self.find_account(&username) {
            Some(i) => {
                if self.accounts[i].password == password {
                    self.logins.push(Login { address: address.clone(), username });
                    assert(self@.logins =~= old(self)@.logins.push(
                        LoginView { address: address@, username: username@ },
                    ));
                    status(true)
                } else {
                    status(false)
                }
            },
            None => status(false),
        }
    }

    fn log_out(&mut self, address: &String) -> (out: ServerResponse)
        ensures
            (final(self)@, out@) == spec_handle(old(self)@, ActionView::LogOut, address@),
    {
        match self.find_login(address) {
            Some(i) => {
                let _ = self.logins.remove(i);
                assert(self@.logins =~= old(self)@.logins.remove(i as int));
                status(true)
            },
            None => status(false),
        }
    }

    fn all_users(&self, me: &String) -> (out: ServerResponse)
        ensures
            (self@, out@) == spec_handle_as(self@, ActionView::GetAllUsers, me@),
    {
        let mut result: Vec<String> = Vec::new();
        let mut i: usize = 0;
        while i < self.keys.len()
            invariant
                i <= self.keys@.len(),
                names_view(result@) == spec_other_users(self@.keys, me@, i as nat),
            decreases self.keys@.len() - i,
        {
            if self.keys[i].username != *me {
                result.push(self.keys[i].username.clone());
            }
            i += 1;
        }
        ServerResponse::UserList { result }
    }

    fn take_messages(&mut self, me: &String) -> (out: ServerResponse)
        ensures
            (final(self)@, out@) == spec_handle_as(old(self)@, ActionView::GetMessages, me@),
    {
        let mut mine: Vec<StoredMessage> = Vec::new();
        let mut left: Vec<Mail> = Vec::new();
        let ghost all = self@.mailbox;
        let mut i: usize = 0;
        while i < self.mailbox.len()
            invariant
                i <= self.mailbox@.len(),
                all == self@.mailbox,
                messages_view(mine@) == spec_mail_for(all, me@, i as nat),
                left@.map_values(|m: Mail| m@) == spec_mail_left(all, me@, i as nat),
            decreases self.mailbox@.len() - i,
        {
            let mail = &self.mailbox[i];
            if mail.receiver == *me {
                mine.push(copy_message(&mail.message));
            } else {
                let ghost before = left@;
                left.push(Mail { receiver: mail.receiver.clone(), message: copy_message(&mail.message) });
                assert(left@.map_values(|m: Mail| m@) =~= before.map_values(|m: Mail| m@).push(
                    mail@,
                ));
            }
            i += 1;
        }
        if mine.len() > 0 {
            self.mailbox = left;
            ServerResponse::Messages { success: true, new_messages: true, messages: Some(mine) }
        } else {
            ServerResponse::Messages { success: true, new_messages: false, messages: None }
        }
    }

    fn publish(
        &mut self,
        me: String,
        ik: [u8; 32],
        spk: [u8; 32],
        opk_bundle: Vec<[u8; 32]>,
        signature: [[u8; 32]; 2],
        verifying_key: [u8; 32],
    ) -> (out: ServerResponse)
        ensures
            (final(self)@, out@) == spec_handle_as(
                old(self)@,
                ActionView::PublishX3DHInformation {
                    ik,
                    spk,
                    opk_bundle: opk_bundle@,
                    signature,
                    verifying_key,
                },
                me@,
            ),
    {
        if self.find_keys(&me).is_some() {
            return status(false);
        }
        let entry = UserKeys { username: me, ik, spk, signature, verifying_key, opks: opk_bundle };
        let ghost added = entry@;
        self.keys.push(entry);
        assert(self@.keys =~= old(self)@.keys.push(added));
        status(true)
    }

    fn update_spk(&mut self, me: &String, spk: [u8; 32], signature: [[u8; 32]; 2], verifying_key: [u8; 32]) -> (out:
        ServerResponse)
        ensures
            (final(self)@, out@) == spec_handle_as(
                old(self)@,
                ActionView::UpdateX3DHSignedPreKey { spk, signature, verifying_key },
                me@,
            ),
    {
        match self.find_keys(me) {
            Some(i) => {
                let entry = &mut self.keys[i];
                entry.spk = spk;
                entry.signature = signature;
                entry.verifying_key = verifying_key;
                assert(self@.keys =~= old(self)@.keys.update(
                    i as int,
                    UserKeysView { spk, signature, verifying_key, ..old(self)@.keys[i as int] },
                ));
                status(true)
            },
            None => status(false),
        }
    }

    fn supply_opks(&mut self, me: &String, opk_bundle: Vec<[u8; 32]>) -> (out: ServerResponse)
        ensures
            (final(self)@, out@) == spec_handle_as(
                old(self)@,
                ActionView::SupplyX3DHOneTimePreKeyBundle { opk_bundle: opk_bundle@ },
                me@,
            ),
    {
        match self.find_keys(me) {
            Some(i) => {
                let mut more = opk_bundle;
                let entry = &mut self.keys[i];
                entry.opks.append(&mut more);
                assert(self@.keys =~= old(self)@.keys.update(
                    i as int,
                    UserKeysView {
                        opks: old(self)@.keys[i as int].opks + opk_bundle@,
                        ..old(self)@.keys[i as int]
                    },
                ));
                status(true)
            },
            None => status(false),
        }
    }

    fn hand_out_keys(&mut self, me: &String, username: &String) -> (out: ServerResponse)
        ensures
            (final(self)@, out@) == spec_handle_as(
                old(self)@,
                ActionView::GetUserPublicKeys { username: username@ },
                me@,
            ),
    {
        match self.find_keys(username) {
            Some(i) => {
                let entry = &mut self.keys[i];
                let ik = entry.ik;
                let spk = entry.spk;
                let signature = entry.signature;
                let verifying_key = entry.verifying_key;
                let opk = if entry.opks.len() > 0 {
                    let first = entry.opks.remove(0);
                    Some(first)
                } else {
                    None
                };
                proof {
                    let k = old(self)@.keys[i as int];
                    if k.opks.len() > 0 {
                        assert(self@.keys =~= old(self)@.keys.update(
                            i as int,
                            UserKeysView { opks: k.opks.drop_first(), ..k },
                        ));
                    } else {
                        assert(self@.keys =~= old(self)@.keys);
                    }
                }
                ServerResponse::UserPublicKeys { ik, spk, opk, signature, verifying_key }
            },
            None => status(false),
        }
    }

    fn keep_message(&mut self, me: String, receiver: String, message: StoredMessage) -> (out:
        ServerResponse)
        requires
            message.sender@ == me@,
        ensures
            (final(self)@, out@) == spec_handle_as(
                old(self)@,
                ActionView::SendMessage {
                    username_receiver: receiver@,
                    message: StoredMessageView { sender: Seq::empty(), ..message@ },
                },
                me@,
            ),
    {
        if self.find_keys(&receiver).is_some() && receiver != me {
            let mail = Mail { receiver, message };
            let ghost added = mail@;
            self.mailbox.push(mail);
            assert(self@.mailbox =~= old(self)@.mailbox.push(added));
            status(true)
        } else {
            status(false)
        }
    }
}

/// Handles one request that came from `address`: changes what the server
/// keeps and returns the response.
pub fn action_handler(state: &mut ServerState, request: Action, address: &String) -> (response:
    ServerResponse)
    ensures
        (final(state)@, response@) == spec_handle(old(state)@, request@, address@),
{
    match request {
        Action::NewUser { username, password } => state.new_user(username, password),
        Action::LogIn { username, password } => state.log_in(address, username, password),
        Action::LogOut => state.log_out(address),
        other => {
            let me = match state.user_at(address) {
                Some(me) => me,
                None => { return status(false); },
            };
            match other {
                Action::GetAllUsers => state.all_users(&me),
                Action::GetMessages => state.take_messages(&me),
                Action::PublishX3DHInformation { ik, spk, opk_bundle, signature, verifying_key } => {
                    state.publish(me, ik, spk, opk_bundle, signature, verifying_key)
                },
                Action::UpdateX3DHSignedPreKey { spk, signature, verifying_key } => {
                    state.update_spk(&me, spk, signature, verifying_key)
                },
                Action::SupplyX3DHOneTimePreKeyBundle { opk_bundle } => state.supply_opks(
                    &me,
                    opk_bundle,
                ),
                Action::GetUserPublicKeys { username } => state.hand_out_keys(&me, &username),
                Action::SendMessage {
                    username_receiver,
                    header_encrypted,
                    header_nonce,
                    ciphertext,
                    nonce,
                    ek_sender,
                    opk_used,
                    ik_sender,
                } => {
                    let message = StoredMessage {
                        sender: me.clone(),
                        header_encrypted,
                        header_nonce,
                        ciphertext,
                        nonce,
                        ek_sender,
                        opk_used,
                        ik_sender,
                    };
                    state.keep_message(me, username_receiver, message)
                },
                _ => status(false),
            }
        },
    }
}

} // verus!
