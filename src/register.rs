//! The registration handler: validate, hash, sign, persist, respond.
//!
//! The token is signed before the record is written and handed out only
//! once the write is taken, so a caller never holds a token for a user that
//! was not stored, and a refused write leaves no record behind.

use vstd::prelude::*;
use crate::hasher::{bcrypt_verdict, hash_password, hashable};
use crate::policy::{
    check_password, is_domain_char, is_local_char, is_valid_email, normalize_email,
    normalized_email, password_ok, valid_domain, valid_email, valid_local, PasswordPolicy,
};
use crate::store::{has_email, insert_outcome, Record, StoreError, User, UserStore};
use crate::text::to_lower;
use crate::token::{
    claims_text, is_subject_char, issuable, issue_token, jwt_payload, lemma_issued_token_lifetime,
    plain_subject, token_verdict,
};

verus! {

/// A registration request as it arrives; the password is plaintext and is
/// never stored.
pub struct RegisterRequest {
    pub email: String,
    pub password: String,
}

/// Why a registration failed.
#[derive(Clone, Copy, Debug, PartialEq, Eq, Structural)]
pub enum RegisterError {
    /// The email is malformed or the password does not meet the policy.
    InvalidInput,
    /// A user with this email is already stored.
    EmailAlreadyRegistered,
    /// Hashing or storage failed, or the settings cannot serve the request.
    InternalError,
}

impl RegisterError {
    /// The HTTP status that reports this error.
    pub fn status(&self) -> (r: u16)
        ensures
            r == status_of(*self),
    {
        match self {
            RegisterError::InvalidInput => 400,
            RegisterError::EmailAlreadyRegistered => 409,
            RegisterError::InternalError => 500,
        }
    }

    /// The stable error code sent in the response body.
    pub fn code(&self) -> (r: String)
        ensures
            r@ == code_of(*self)@,
    {
        match self {
            RegisterError::InvalidInput => String::from_str("InvalidInput"),
            RegisterError::EmailAlreadyRegistered => String::from_str("EmailAlreadyRegistered"),
            RegisterError::InternalError => String::from_str("InternalError"),
        }
    }
}

pub open spec fn status_of(e: RegisterError) -> u16 {
    match e {
        RegisterError::InvalidInput => 400,
        RegisterError::EmailAlreadyRegistered => 409,
        RegisterError::InternalError => 500,
    }
}

pub open spec fn code_of(e: RegisterError) -> &'static str {
    match e {
        RegisterError::InvalidInput => "InvalidInput",
        RegisterError::EmailAlreadyRegistered => "EmailAlreadyRegistered",
        RegisterError::InternalError => "InternalError",
    }
}

/// Settings fixed at startup.
pub struct Config {
    /// Key that signs session tokens.
    pub secret: Vec<u8>,
    /// Token lifetime in seconds.
    pub ttl_secs: u64,
    /// Work factor of password hashing.
    pub cost: u32,
    /// Rules for passwords.
    pub policy: PasswordPolicy,
}

pub open spec fn valid_request(req: &RegisterRequest, policy: PasswordPolicy) -> bool {
    valid_email(req.email@) && password_ok(req.password@, policy)
}

/// Whether hashing and signing can succeed at all for `req` under `config`
/// at `now`: the work factor is in range, the password fits the hashing
/// scheme, and the token lifetime is positive and ends before `u64::MAX`.
pub open spec fn usable(req: &RegisterRequest, config: &Config, now: u64) -> bool {
    &&& hashable(req.password@, config.cost)
    &&& config.ttl_secs > 0
    &&& now + config.ttl_secs <= u64::MAX
}

/// A user record ready to be written and the token to hand out once it is.
pub struct Prepared {
    pub user: User,
    pub token: String,
}

/// What a prepared registration promises: the record holds the normalised
/// email and a hash of the password, and the token names that email.
pub open spec fn prepared_for(
    p: Prepared,
    req: &RegisterRequest,
    config: &Config,
    now: u64,
) -> bool {
    &&& p.user.email@ == normalized_email(req.email@)
    &&& bcrypt_verdict(req.password@, p.user.password_hash@) == Some(true)
    &&& forall|q: Seq<char>| (#[trigger] bcrypt_verdict(q, p.user.password_hash@)) is Some
    &&& issuable(normalized_email(req.email@), now, config.ttl_secs)
    &&& jwt_payload(p.token@, config.secret@) == Some(
        claims_text(normalized_email(req.email@), now as nat, (now + config.ttl_secs) as nat),
    )
}

/// A well-formed email, in lower case, can stand as a token subject.
pub proof fn lemma_email_is_subject(s: Seq<char>)
    requires
        valid_email(s),
    ensures
        plain_subject(normalized_email(s)),
{
    let k = choose|k: int|
        0 <= k < s.len() && s[k] == '@' && valid_local(#[trigger] s.subrange(0, k))
            && valid_domain(s.subrange(k + 1, s.len() as int));
    let n = normalized_email(s);
    assert forall|i: int| 0 <= i < n.len() implies #[trigger] is_subject_char(n[i]) by {
        if i < k {
            assert(s.subrange(0, k)[i] == s[i]);
            assert(is_local_char(s[i]));
        } else if i > k {
            assert(s.subrange(k + 1, s.len() as int)[i - k - 1] == s[i]);
            assert(is_domain_char(s[i]));
        }
        assert(n[i] == to_lower(s[i]));
    }
}

/// Validates the request, hashes the password and signs the token, without
/// touching any store.
pub fn prepare_registration(req: &RegisterRequest, config: &Config, now: u64) -> (r: Result<
    Prepared,
    RegisterError,
>)
    ensures
        !valid_request(req, config.policy) ==> r == Err::<Prepared, RegisterError>(
            RegisterError::InvalidInput,
        ),
        valid_request(req, config.policy) ==> r is Ok || r == Err::<Prepared, RegisterError>(
            RegisterError::InternalError,
        ),
        valid_request(req, config.policy) && !usable(req, config, now) ==> r == Err::<
            Prepared,
            RegisterError,
        >(RegisterError::InternalError),
        r matches Ok(p) ==> prepared_for(p, req, config, now),
{
    if !is_valid_email(req.email.as_str()) || !check_password(req.password.as_str(), config.policy) {
        return Err(RegisterError::InvalidInput);
    }
    let email = normalize_email(req.email.as_str());
    let password_hash = match hash_password(req.password.as_str(), config.cost) {
        Ok(h) => h,
        Err(_) => return Err(RegisterError::InternalError),
    };
    proof {
        lemma_email_is_subject(req.email@);
    }
    let token = match issue_token(config.secret.as_slice(), email.as_str(), now, config.ttl_secs) {
        Ok(t) => t,
        Err(_) => return Err(RegisterError::InternalError),
    };
    Ok(Prepared { user: User { email, password_hash }, token })
}

/// Outcome of writing a prepared record to a store.
#[derive(Clone, Copy, Debug, PartialEq, Eq, Structural)]
pub enum InsertOutcome {
    Inserted,
    DuplicateKey,
    /// The store failed for another reason, a timeout included.
    Failed,
}

/// Answers a registration once the store has taken or refused the record:
/// the token goes out only for a record that was written.
pub fn finish_registration(token: String, outcome: InsertOutcome) -> (r: Result<
    String,
    RegisterError,
>)
    ensures
        outcome == InsertOutcome::Inserted ==> r == Ok::<String, RegisterError>(token),
        outcome == InsertOutcome::DuplicateKey ==> r == Err::<String, RegisterError>(
            RegisterError::EmailAlreadyRegistered,
        ),
        outcome == InsertOutcome::Failed ==> r == Err::<String, RegisterError>(
            RegisterError::InternalError,
        ),
{
    match outcome {
        InsertOutcome::Inserted => Ok(token),
        InsertOutcome::DuplicateKey => Err(RegisterError::EmailAlreadyRegistered),
        InsertOutcome::Failed => Err(RegisterError::InternalError),
    }
}

/// Registers `req` in `store` at time `now`.
pub fn register_at(store: &mut UserStore, req: &RegisterRequest, config: &Config, now: u64) -> (r:
    Result<String, RegisterError>)
    requires
        old(store).wf(),
    ensures
        final(store).wf(),
        r is Err ==> final(store)@ == old(store)@,
        !valid_request(req, config.policy) ==> r == Err::<String, RegisterError>(
            RegisterError::InvalidInput,
        ),
        valid_request(req, config.policy) && !usable(req, config, now) ==> r == Err::<
            String,
            RegisterError,
        >(RegisterError::InternalError),
        valid_request(req, config.policy) && has_email(old(store)@, normalized_email(req.email@))
            ==> r == Err::<String, RegisterError>(RegisterError::EmailAlreadyRegistered) || r
            == Err::<String, RegisterError>(RegisterError::InternalError),
        valid_request(req, config.policy) && !has_email(old(store)@, normalized_email(req.email@))
            ==> r is Ok || r == Err::<String, RegisterError>(RegisterError::InternalError),
        r == Err::<String, RegisterError>(RegisterError::EmailAlreadyRegistered) ==> has_email(
            old(store)@,
            normalized_email(req.email@),
        ),
        r matches Ok(t) ==> {
            &&& !has_email(old(store)@, normalized_email(req.email@))
            &&& exists|h: Seq<char>|
                {
                    &&& bcrypt_verdict(req.password@, h) == Some(true)
                    &&& forall|q: Seq<char>| (#[trigger] bcrypt_verdict(q, h)) is Some
                    &&& final(store)@ == old(store)@.push((normalized_email(req.email@), h))
                }
            &&& token_verdict(jwt_payload(t@, config.secret@), now) is Ok
            &&& jwt_payload(t@, config.secret@) == Some(
                claims_text(
                    normalized_email(req.email@),
                    now as nat,
                    (now + config.ttl_secs) as nat,
                ),
            )
        },
{
    let prepared = match prepare_registration(req, config, now) {
        Ok(p) => p,
        Err(e) => return Err(e),
    };
    let Prepared { user, token } = prepared;
    let ghost rec = user.record();
    let outcome = match store.insert(user) {
        Ok(()) => InsertOutcome::Inserted,
        Err(StoreError::DuplicateKey) => InsertOutcome::DuplicateKey,
    };
    proof {
        assert(rec.0 == normalized_email(req.email@));
        lemma_issued_token_lifetime(
            token@,
            config.secret@,
            normalized_email(req.email@),
            now,
            config.ttl_secs,
            now,
        );
    }
    finish_registration(token, outcome)
}

/// Once a registration has written its record, its email is taken: a later
/// registration with the same email is refused.
pub proof fn lemma_registered_email_taken(records: Seq<Record>, email: Seq<char>, h: Seq<char>)
    ensures
        has_email(records.push((email, h)), email),
        insert_outcome(records, (email, h)).1 ==> has_email(insert_outcome(records, (email, h)).0, email),
{
    assert(records.push((email, h))[records.len() as int].0 == email);
}

} // verus!
