//! Account passwords, which are kept as argon2 hashes.

use argon2::password_hash::rand_core::OsRng;
use argon2::password_hash::SaltString;
use argon2::{Argon2, PasswordHash, PasswordHasher, PasswordVerifier};
use vstd::prelude::*;
use vstd::string::*;

use crate::db::User;
use crate::text::byte_len;

verus! {

/// Whether argon2 accepts a password for a hash.
pub uninterp spec fn argon2_accepts(password: Seq<char>, hash: Seq<char>) -> bool;

/// The bytes of the longest password that argon2 takes.
pub const MAX_PASSWORD_BYTES: u64 = 0xffff_ffff;

/// `argon2::Argon2::hash_password` with the default parameters and a fresh salt
/// from `SaltString::generate`, written out as a PHC string. With these it fails
/// only for a password of more than `argon2::MAX_PWD_LEN` bytes; the error is given
/// as its text. Which hash comes is left to chance, but it is one that accepts the
/// password.
#[verifier::external_body]
fn argon2_hash(password: &str) -> (r: Result<String, String>)
    ensures
        match r {
            Ok(h) => byte_len(password@) <= MAX_PASSWORD_BYTES && argon2_accepts(password@, h@),
            Err(e) => byte_len(password@) > MAX_PASSWORD_BYTES && e@ == "invalid password"@,
        },
{
    let salt = SaltString::generate(&mut OsRng);
    Argon2::default()
        .hash_password(password.as_bytes(), &salt)
        .map(|h| h.to_string())
        .map_err(|e| e.to_string())
}

/// `argon2::PasswordHash::new` and, if the hash can be read,
/// `argon2::Argon2::verify_password`: whether the password is accepted, which is
/// a function of the two texts.
#[verifier::external_body]
fn argon2_verify(password: &str, hash: &str) -> (r: bool)
    ensures
        r == argon2_accepts(password@, hash@),
{
    match PasswordHash::new(hash) {
        Ok(parsed) => Argon2::default().verify_password(password.as_bytes(), &parsed).is_ok(),
        Err(_) => false,
    }
}

/// A hash to store for a password. Only a password of more bytes than argon2 takes
/// has none.
pub fn hash_password(password: &str) -> (r: Result<String, String>)
    ensures
        match r {
            Ok(h) => byte_len(password@) <= MAX_PASSWORD_BYTES && argon2_accepts(password@, h@),
            Err(e) => byte_len(password@) > MAX_PASSWORD_BYTES && e@
                == "hashing failed: invalid password"@,
        },
{
    match argon2_hash(password) {
        Ok(h) => Ok(h),
        Err(reason) => {
            let mut message = "hashing failed: ".to_string();
            message.append(reason.as_str());
            proof {
                reveal_strlit("hashing failed: ");
                reveal_strlit("invalid password");
                reveal_strlit("hashing failed: invalid password");
                assert(message@ =~= "hashing failed: invalid password"@);
            }
            Err(message)
        },
    }
}

/// Whether a stored hash accepts a password.
pub fn verify_password(password: &str, hash: &str) -> (r: bool)
    ensures
        r == argon2_accepts(password@, hash@),
{
    argon2_verify(password, hash)
}

/// A throwaway hash used to equalize timing when the username does not exist.
pub fn dummy_hash() -> (r: String)
    ensures
        argon2_accepts("smtpvoid-timing-dummy"@, r@),
{
    proof {
        reveal_strlit("smtpvoid-timing-dummy");
        vstd::utf8::is_ascii_chars_encode_utf8("smtpvoid-timing-dummy"@);
    }
    let hashed = hash_password("smtpvoid-timing-dummy");
    hashed.unwrap()
}

/// Who signs in: the account that was found, if its hash accepts the password.
/// Without an account a throwaway hash is tried, so that it takes as long.
pub fn sign_in(user: Option<User>, password: &str, dummy: &str) -> (r: Option<User>)
    ensures
        r == (if user is Some && argon2_accepts(password@, user->0.password_hash@) {
            user
        } else {
            None
        }),
{
    match user {
        Some(u) => if verify_password(password, u.password_hash.as_str()) {
            Some(u)
        } else {
            None
        },
        None => {
            let _ = verify_password(password, dummy);
            None
        },
    }
}

} // verus!
