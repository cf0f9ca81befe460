//! Credential hashing: salted, deliberately slow, one-way.

use vstd::prelude::*;
use vstd::utf8::encode_utf8;

verus! {

/// Lowest work factor that the hashing scheme accepts.
pub const MIN_COST: u32 = 4;

/// Highest work factor that the hashing scheme accepts.
pub const MAX_COST: u32 = 31;

/// Longest password, in bytes, that the hashing scheme takes in whole.
pub const MAX_PASSWORD_BYTES: usize = 72;

/// Work factor used where none is configured.
pub const DEFAULT_COST: u32 = 12;

/// Hashing failed, or a stored hash is malformed.
#[derive(Clone, Copy, Debug, PartialEq, Eq, Structural)]
pub enum HashingError {
    HashingError,
}

#[verifier::external_type_specification]
#[verifier::external_body]
pub struct ExBcryptError(bcrypt::BcryptError);

/// What checking `password` against the stored `hash` gives: `Some(verdict)`,
/// or `None` where the stored hash cannot be read.
pub uninterp spec fn bcrypt_verdict(password: Seq<char>, hash: Seq<char>) -> Option<bool>;

/// Relies on `bcrypt::hash`: a work factor outside 4..=31 is refused; the
/// result is `$2b$`, two cost digits, `$`, 22 salt and 31 hash characters,
/// which `bcrypt::verify` reads back for any password, and checking the same
/// password against it recomputes the same digest.
#[verifier::external_body]
fn bcrypt_hash(password: &str, cost: u32) -> (r: Result<String, bcrypt::BcryptError>)
    ensures
        !(MIN_COST <= cost <= MAX_COST) ==> r is Err,
        r matches Ok(h) ==> h@.len() == 60 && bcrypt_verdict(password@, h@) == Some(true),
        r matches Ok(h) ==> forall|p: Seq<char>| (#[trigger] bcrypt_verdict(p, h@)) is Some,
{
    bcrypt::hash(password, cost)
}

/// Relies on `bcrypt::verify`: its outcome depends on the two strings alone,
/// and any hash it can read is at least 58 characters long.
#[verifier::external_body]
fn bcrypt_verify(password: &str, hash: &str) -> (r: Result<bool, bcrypt::BcryptError>)
    ensures
        r matches Ok(b) ==> bcrypt_verdict(password@, hash@) == Some(b),
        r is Err ==> bcrypt_verdict(password@, hash@) is None,
        hash@.len() < 58 ==> r is Err,
{
    bcrypt::verify(password, hash)
}

/// Whether `plaintext` can be hashed at work factor `cost`.
pub open spec fn hashable(plaintext: Seq<char>, cost: u32) -> bool {
    &&& MIN_COST <= cost <= MAX_COST
    &&& encode_utf8(plaintext).len() <= MAX_PASSWORD_BYTES
}

/// Hashes `plaintext` with a fresh random salt at work factor `cost`.
/// The salt differs from call to call, so equal inputs give differing
/// outputs; each of them verifies against `plaintext`.
pub fn hash_password(plaintext: &str, cost: u32) -> (r: Result<String, HashingError>)
    ensures
        !hashable(plaintext@, cost) ==> r == Err::<String, HashingError>(HashingError::HashingError),
        r matches Ok(h) ==> bcrypt_verdict(plaintext@, h@) == Some(true),
        r matches Ok(h) ==> forall|p: Seq<char>| (#[trigger] bcrypt_verdict(p, h@)) is Some,
{
    if cost < MIN_COST || cost > MAX_COST || plaintext.as_bytes().len() > MAX_PASSWORD_BYTES {
        return Err(HashingError::HashingError);
    }
    match bcrypt_hash(plaintext, cost) {
        Ok(h) => Ok(h),
        Err(_) => Err(HashingError::HashingError),
    }
}

/// Outcome of checking a password against a stored hash.
pub open spec fn verify_result(plaintext: Seq<char>, stored: Seq<char>) -> Result<bool, HashingError> {
    match bcrypt_verdict(plaintext, stored) {
        Some(b) => Ok(b),
        None => Err(HashingError::HashingError),
    }
}

/// Checks `plaintext` against a stored hash: `Ok(false)` for a wrong
/// password, `Err` for a stored hash that cannot be read.
pub fn verify_password(plaintext: &str, stored: &str) -> (r: Result<bool, HashingError>)
    ensures
        r == verify_result(plaintext@, stored@),
        stored@.len() < 58 ==> r is Err,
{
    match bcrypt_verify(plaintext, stored) {
        Ok(b) => Ok(b),
        Err(_) => Err(HashingError::HashingError),
    }
}

/// A hash made from a password verifies against that same password, and
/// checking any password against it gives a verdict, never an error.
pub proof fn lemma_hash_then_verify(plaintext: Seq<char>, h: Seq<char>)
    requires
        bcrypt_verdict(plaintext, h) == Some(true),
        forall|p: Seq<char>| (#[trigger] bcrypt_verdict(p, h)) is Some,
    ensures
        verify_result(plaintext, h) == Ok::<bool, HashingError>(true),
        forall|p: Seq<char>| (#[trigger] verify_result(p, h)) is Ok,
{
    assert forall|p: Seq<char>| (#[trigger] verify_result(p, h)) is Ok by {
        assert(bcrypt_verdict(p, h) is Some);
    }
}

} // verus!
