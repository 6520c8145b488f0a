//! The error kinds of the library.

use vstd::prelude::*;

verus! {

/// What can go wrong in a handshake, in a session or in the key bundle.
#[derive(Clone, Copy, Debug, PartialEq, Eq, Structural)]
pub enum Error {
    /// The signature over the signed prekey does not verify.
    SignatureInvalid,
    /// The responder does not hold the one-time prekey that a preamble names.
    UnknownOneTimeKey,
    /// No header key opens the header.
    HeaderDecryptFailed,
    /// The tag of the message body does not verify.
    AuthenticationFailed,
    /// Reading the message would skip more keys than the session allows.
    TooManySkipped,
    /// The message is older than the receiving counter and its key is no
    /// longer stored.
    MessageKeyExpired,
    /// A preamble names another identity key than the session's peer.
    PeerIdentityMismatch,
    /// The session is in a state that no sequence of operations leads to.
    SessionCorrupt,
    /// The key bundle holds no such one-time prekey.
    NotFound,
    /// The key bundle was handed out for publication before.
    AlreadyPublished,
    /// A Diffie-Hellman output was all zero.
    WeakSharedSecret,
    /// The plaintext is too long for the wire format.
    MessageTooLong,
    /// The operating system gave no random bytes.
    NoEntropy,
    /// There is no session with the peer and nothing to start one from.
    UnknownPeer,
}

/// What a user is told about an error.
pub open spec fn spec_message(e: Error) -> Seq<char> {
    match e {
        Error::SignatureInvalid => "the signature over the signed prekey does not verify"@,
        Error::UnknownOneTimeKey => "the message names a one-time prekey that is not held"@,
        Error::HeaderDecryptFailed => "no header key opens the message"@,
        Error::AuthenticationFailed => "the message was changed on its way"@,
        Error::TooManySkipped => "the message skips more messages than the session allows"@,
        Error::MessageKeyExpired => "the key of this late message is no longer kept"@,
        Error::PeerIdentityMismatch => "the peer presents another identity key than before"@,
        Error::SessionCorrupt => "the session is in no state to go on"@,
        Error::NotFound => "the key bundle holds no such one-time prekey"@,
        Error::AlreadyPublished => "the key bundle was published before"@,
        Error::WeakSharedSecret => "a key agreement gave an all-zero secret"@,
        Error::MessageTooLong => "the message is too long"@,
        Error::NoEntropy => "the operating system gave no random bytes"@,
        Error::UnknownPeer => "there is no session with this peer"@,
    }
}

impl Error {
    /// What a user is told about the error.
    pub fn message(&self) -> (out: String)
        ensures
            out@ == spec_message(*self),
    {
        match self {
            Error::SignatureInvalid => "the signature over the signed prekey does not verify".to_owned(),
            Error::UnknownOneTimeKey => "the message names a one-time prekey that is not held".to_owned(),
            Error::HeaderDecryptFailed => "no header key opens the message".to_owned(),
            Error::AuthenticationFailed => "the message was changed on its way".to_owned(),
            Error::TooManySkipped => "the message skips more messages than the session allows".to_owned(),
            Error::MessageKeyExpired => "the key of this late message is no longer kept".to_owned(),
            Error::PeerIdentityMismatch => "the peer presents another identity key than before".to_owned(),
            Error::SessionCorrupt => "the session is in no state to go on".to_owned(),
            Error::NotFound => "the key bundle holds no such one-time prekey".to_owned(),
            Error::AlreadyPublished => "the key bundle was published before".to_owned(),
            Error::WeakSharedSecret => "a key agreement gave an all-zero secret".to_owned(),
            Error::MessageTooLong => "the message is too long".to_owned(),
            Error::NoEntropy => "the operating system gave no random bytes".to_owned(),
            Error::UnknownPeer => "there is no session with this peer".to_owned(),
        }
    }

    /// Whether the error is to be expected from messages that an adversary
    /// sends or delays, as opposed to a sign that something is wrong with
    /// the session or the peer.
    pub fn is_expected(&self) -> (out: bool)
        ensures
            out == !(*self == Error::PeerIdentityMismatch || *self == Error::SessionCorrupt),
    {
        match self {
            Error::PeerIdentityMismatch => false,
            Error::SessionCorrupt => false,
            _ => true,
        }
    }
}

} // verus!
