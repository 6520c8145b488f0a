//! What is derived from a password: the hash that a client sends in place
//! of it, and the key that the client encrypts its stored state with.

use vstd::prelude::*;

verus! {

/// The Argon2id hash of a password with a salt in B64, with the default
/// parameters, as a PHC string; `None` where the salt or the password is
/// not accepted.
pub uninterp spec fn argon2id_spec(password: Seq<char>, salt: Seq<char>) -> Option<Seq<char>>;

/// Calls `SaltString::from_b64` and `Argon2::default().hash_password`
/// (trait `PasswordHasher`) of the argon2 crate and writes the hash out as a
/// PHC string.
#[verifier::external_body]
fn argon2id(password: &str, salt: &str) -> (out: Option<String>)
    ensures
        match out {
            Some(hash) => argon2id_spec(password@, salt@) == Some(hash@),
            None => argon2id_spec(password@, salt@) is None,
        },
{
    let salt = match argon2::password_hash::SaltString::from_b64(salt) {
        Ok(salt) => salt,
        Err(_) => return None,
    };
    match argon2::PasswordHasher::hash_password(&argon2::Argon2::default(), password.as_bytes(), &salt) {
        Ok(hash) => Some(hash.to_string()),
        Err(_) => None,
    }
}

/// The salt that every client hashes with, so that the same password gives
/// the same hash wherever the user logs in.
pub open spec fn client_salt() -> Seq<char> {
    "vRpg/cByxpn6m1L0ZPF5ew"@
}

/// The hash of `password` that the server keeps and compares; `None` when
/// the password cannot be hashed.
pub fn get_hash(password: &String) -> (out: Option<String>)
    ensures
        match out {
            Some(hash) => argon2id_spec(password@, client_salt()) == Some(hash@),
            None => argon2id_spec(password@, client_salt()) is None,
        },
{
    argon2id(password.as_str(), "vRpg/cByxpn6m1L0ZPF5ew")
}

/// The 32 bytes that Argon2id, with the default parameters, derives from a
/// password and a salt; `None` where the salt or the password is not
/// accepted.
pub uninterp spec fn argon2id_key_spec(password: Seq<char>, salt: Seq<u8>) -> Option<Seq<u8>>;

/// Calls `Argon2::default().hash_password_into` of the argon2 crate, which
/// fills the output from password and salt or refuses them.
#[verifier::external_body]
fn argon2id_key(password: &str, salt: &[u8]) -> (out: Option<[u8; 32]>)
    ensures
        match out {
            Some(key) => argon2id_key_spec(password@, salt@) == Some(key@),
            None => argon2id_key_spec(password@, salt@) is None,
        },
{
    let mut key = [0u8; 32];
    match argon2::Argon2::default().hash_password_into(password.as_bytes(), salt, &mut key) {
        Ok(()) => Some(key),
        Err(_) => None,
    }
}

/// The key that a user's stored keys and sessions are encrypted with at
/// rest; `None` when password or salt cannot be used. It is derived from
/// the password and never sent anywhere.
pub fn storage_key(password: &String, salt: &[u8]) -> (out: Option<[u8; 32]>)
    ensures
        match out {
            Some(key) => argon2id_key_spec(password@, salt@) == Some(key@),
            None => argon2id_key_spec(password@, salt@) is None,
        },
{
    argon2id_key(password.as_str(), salt)
}

} // verus!
