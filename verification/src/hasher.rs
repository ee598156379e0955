//! One-way, salted password hashing and verification.
//!
//! A derived hash is a self-describing PHC string carrying the algorithm,
//! version, parameters and salt beside the digest. Hashing draws a fresh
//! random salt on every call, so two hashes of one password differ;
//! verification recomputes the digest from the embedded salt and compares.

use vstd::prelude::*;

use argon2::password_hash::rand_core::OsRng;
use argon2::password_hash::{PasswordHash, PasswordHasher, PasswordVerifier, SaltString};
use argon2::Argon2;

verus! {

/// Whether the password verifies against the PHC hash string: the string
/// parses, and the digest recomputed from its salt and parameters with the
/// password matches. False for a malformed hash string.
pub uninterp spec fn argon2_verifies(phc: Seq<char>, password: Seq<char>) -> bool;

/// Hash derivation failed; fatal to the calling operation.
#[derive(Clone, Copy, PartialEq, Eq, Structural, Debug)]
pub struct HashError;

/// Relies on argon2's `Argon2::hash_password` (via the `PasswordHasher`
/// trait) with a salt from `SaltString::generate(OsRng)`: on success the
/// returned PHC string verifies against the hashed password, since
/// `verify_password` recomputes the digest from the same salt, algorithm
/// and parameters that the string embeds. The string is self-describing:
/// it opens with a dollar sign and the algorithm identifier, here one of
/// the argon2 family.
#[verifier::external_body]
fn argon2_hash(password: &str) -> (r: Result<String, HashError>)
    ensures
        r matches Ok(h) ==> argon2_verifies(h@, password@) && h@.len() > 7 && h@.subrange(0, 7)
            == "$argon2"@,
{
    let salt = SaltString::generate(&mut OsRng);
    match Argon2::default().hash_password(password.as_bytes(), &salt) {
        Ok(h) => Ok(h.to_string()),
        Err(_) => Err(HashError),
    }
}

/// Relies on argon2's `PasswordHash::new` and `Argon2::verify_password`:
/// the outcome depends on the hash string and the password alone, which is
/// what `argon2_verifies` names. A string that does not parse yields false
/// rather than an error, indistinguishable from a mismatch.
#[verifier::external_body]
fn argon2_verify(phc: &str, password: &str) -> (r: bool)
    ensures
        r == argon2_verifies(phc@, password@),
{
    match PasswordHash::new(phc) {
        Ok(parsed) => {
            Argon2::default().verify_password(password.as_bytes(), &parsed).is_ok()
        },
        Err(_) => false,
    }
}

/// Derives a fresh salted hash of the password, as a self-describing PHC
/// string of the argon2 family. Two calls with the same password produce
/// different strings, yet each verifies against it. Failure (for
/// instance, OS entropy unavailable) is fatal to the calling operation
/// and is reported, never swallowed.
pub fn hash_password(password: &str) -> (r: Result<String, HashError>)
    ensures
        r matches Ok(h) ==> argon2_verifies(h@, password@) && h@.len() > 7 && h@.subrange(0, 7)
            == "$argon2"@,
{
    argon2_hash(password)
}

/// Checks the password against a PHC hash string. Never fails: a malformed
/// string yields false, exactly as a wrong password does, so the two cases
/// look identical to a would-be attacker.
pub fn verify_password(pw_hash: &str, password: &str) -> (r: bool)
    ensures
        r == argon2_verifies(pw_hash@, password@),
{
    argon2_verify(pw_hash, password)
}

/// Law: a password hashed and then verified, with the same password,
/// always passes — whenever hashing succeeded at all.
pub fn hash_then_verify(password: &str) -> (r: Result<bool, HashError>)
    ensures
        r matches Ok(b) ==> b,
{
    match hash_password(password) {
        Ok(h) => Ok(verify_password(h.as_str(), password)),
        Err(e) => Err(e),
    }
}

} // verus!
