//! The privileged account that a fresh store is seeded with.

use argon2::password_hash::rand_core::{OsRng, RngCore};
use argon2::password_hash::{PasswordHasher, Salt, SaltString};
use argon2::Argon2;
use vstd::prelude::*;

verus! {

/// The role and the password hash of the privileged account.
#[derive(Debug)]
pub struct AdminCredentials {
    pub role: String,
    pub password_hash: String,
}

/// The Argon2 hash of `password` under `salt`, in its PHC text, as the
/// argon2 crate computes it with its default parameters; `None` where the
/// crate refuses the salt or the password.
pub uninterp spec fn argon2_phc(password: Seq<char>, salt: Seq<char>) -> Option<Seq<char>>;

/// What the credentials of the privileged account are for a given outcome
/// of hashing its password.
pub open spec fn credentials_match(
    credentials: Option<AdminCredentials>,
    password_hash: Option<Seq<char>>,
) -> bool {
    match password_hash {
        Some(hash) => credentials matches Some(c) && c.role@ == "admin"@ && c.password_hash@
            == hash,
        None => credentials is None,
    }
}

pub open spec fn text_of(text: Option<String>) -> Option<Seq<char>> {
    match text {
        Some(text) => Some(text@),
        None => None,
    }
}

/// The role of the privileged account. A store that holds an account of this
/// role has been seeded.
pub fn admin_role() -> (role: &'static str)
    ensures
        role@ == "admin"@,
{
    "admin"
}

/// The credentials of the privileged account for what hashing its password
/// gave: none where there is no hash.
pub fn admin_credentials(password_hash: Option<String>) -> (credentials: Option<AdminCredentials>)
    ensures
        credentials_match(credentials, text_of(password_hash)),
{
    match password_hash {
        Some(hash) => Some(AdminCredentials { role: admin_role().to_owned(), password_hash: hash }),
        None => None,
    }
}

/// The credentials of the privileged account with `password` hashed under
/// `salt`; none where the hash cannot be computed.
pub fn salted_admin_credentials(password: &str, salt: &str) -> (credentials: Option<
    AdminCredentials,
>)
    ensures
        credentials_match(credentials, argon2_phc(password@, salt@)),
{
    admin_credentials(hash_password(password, salt))
}

/// The credentials of the privileged account with `password` hashed under a
/// salt drawn for the purpose; none where no salt could be drawn or the hash
/// cannot be computed.
pub fn new_admin_credentials(password: &str) -> (credentials: Option<AdminCredentials>)
    ensures
        credentials matches Some(_) ==> exists|salt: Seq<char>|
            credentials_match(credentials, #[trigger] argon2_phc(password@, salt)),
{
    match fresh_salt() {
        Some(salt) => salted_admin_credentials(password, salt.as_str()),
        None => None,
    }
}

/// argon2's `hash_password` with the crate's default parameters, on a salt
/// that password_hash's `SaltString::from_b64` has read from its B64 text. The
/// hash is returned in its PHC text; `None` stands for an error of either.
/// The result is named, not stated.
#[verifier::external_body]
fn hash_password(password: &str, salt: &str) -> (hash: Option<String>)
    ensures
        text_of(hash) == argon2_phc(password@, salt@),
{
    let salt = SaltString::from_b64(salt).ok()?;
    Argon2::default().hash_password(password.as_bytes(), &salt).ok().map(|hash| hash.to_string())
}

/// A salt of the recommended length in its B64 text: bytes that rand_core's
/// `OsRng` fills, encoded by password_hash's `SaltString::encode_b64`. `None`
/// stands for an error of either. The bytes are random, so nothing is claimed
/// of the salt.
#[verifier::external_body]
fn fresh_salt() -> (salt: Option<String>) {
    let mut bytes = [0u8; Salt::RECOMMENDED_LENGTH];
    OsRng.try_fill_bytes(&mut bytes).ok()?;
    SaltString::encode_b64(&bytes).ok().map(|salt| salt.as_str().to_owned())
}

} // verus!
