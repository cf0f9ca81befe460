use register_service::hasher::{hash_password, verify_password, HashingError};
use register_service::policy::{check_password, is_valid_email, normalize_email, PasswordPolicy};
use register_service::register::{
    finish_registration, prepare_registration, register_at, Config, InsertOutcome,
    RegisterError, RegisterRequest,
};
use register_service::store::{StoreError, User, UserStore};
use register_service::token::{
    check_expiry, claims_json, is_plain_subject, issue_claims, issue_token, Claims, TokenError,
    DEFAULT_TTL_SECS,
};

fn config() -> Config {
    Config {
        secret: b"test-signing-key".to_vec(),
        ttl_secs: DEFAULT_TTL_SECS,
        cost: 4,
        policy: PasswordPolicy::standard(),
    }
}

fn request(email: &str, password: &str) -> RegisterRequest {
    RegisterRequest { email: email.to_string(), password: password.to_string() }
}

fn decoded_claims(token: &str, secret: &[u8]) -> serde_json::Value {
    let mut validation = jsonwebtoken::Validation::new(jsonwebtoken::Algorithm::HS256);
    validation.validate_exp = false;
    let key = jsonwebtoken::DecodingKey::from_secret(secret);
    jsonwebtoken::decode::<serde_json::Value>(token, &key, &validation).unwrap().claims
}

#[test]
fn email_shapes() {
    assert!(is_valid_email("a@b.com"));
    assert!(is_valid_email("First.Last+tag@mail.example.org"));
    assert!(!is_valid_email(""));
    assert!(!is_valid_email("a.b.com"));
    assert!(!is_valid_email("@b.com"));
    assert!(!is_valid_email("a@"));
    assert!(!is_valid_email("a@b"));
    assert!(!is_valid_email("a@.com"));
    assert!(!is_valid_email("a@b.com."));
    assert!(!is_valid_email("a@b@c.com"));
    assert!(!is_valid_email("a b@c.com"));
}

#[test]
fn email_is_lowered() {
    assert_eq!(normalize_email("Alice.B@Example.COM"), "alice.b@example.com");
    assert_eq!(normalize_email(""), "");
}

#[test]
fn password_policy() {
    let p = PasswordPolicy::standard();
    assert!(check_password("Secret123!", p));
    assert!(!check_password("Sec123", p));
    assert!(!check_password("onlyletters", p));
    assert!(!check_password("1234567890", p));
    assert!(check_password(&"a1".repeat(37), p));
    let lax = PasswordPolicy { min_chars: 1, require_letter: false, require_digit: false };
    assert!(check_password("x", lax));
    assert!(!check_password("", lax));
}

#[test]
fn hash_then_verify() {
    let h = hash_password("Secret123!", 4).unwrap();
    assert_ne!(h, "Secret123!");
    assert_eq!(h.len(), 60);
    assert_eq!(verify_password("Secret123!", &h), Ok(true));
    assert_eq!(verify_password("Secret124!", &h), Ok(false));
}

#[test]
fn hashes_differ_by_salt() {
    let a = hash_password("Secret123!", 4).unwrap();
    let b = hash_password("Secret123!", 4).unwrap();
    assert_ne!(a, b);
    assert_eq!(verify_password("Secret123!", &b), Ok(true));
}

#[test]
fn hash_rejects_bad_cost_and_length() {
    assert_eq!(hash_password("Secret123!", 3), Err(HashingError::HashingError));
    assert_eq!(hash_password("Secret123!", 32), Err(HashingError::HashingError));
    assert_eq!(hash_password(&"x".repeat(73), 4), Err(HashingError::HashingError));
    assert!(hash_password(&"x".repeat(72), 4).is_ok());
}

#[test]
fn malformed_hash_is_an_error() {
    assert_eq!(verify_password("Secret123!", "not-a-hash"), Err(HashingError::HashingError));
    assert_eq!(verify_password("Secret123!", ""), Err(HashingError::HashingError));
}

#[test]
fn claims_text_is_fixed() {
    let c = Claims { sub: "a@b.com".to_string(), iat: 100, exp: 86500 };
    assert_eq!(claims_json(&c), "{\"sub\":\"a@b.com\",\"iat\":100,\"exp\":86500}");
    let z = Claims { sub: String::new(), iat: 0, exp: u64::MAX };
    assert_eq!(claims_json(&z), "{\"sub\":\"\",\"iat\":0,\"exp\":18446744073709551615}");
}

#[test]
fn claims_window() {
    let c = issue_claims("a@b.com", 1000, 86400).unwrap();
    assert_eq!(c.sub, "a@b.com");
    assert_eq!((c.iat, c.exp), (1000, 87400));
    assert!(issue_claims("a@b.com", 1000, 0).is_none());
    assert!(issue_claims("a@b.com", u64::MAX - 5, 6).is_none());
    assert!(issue_claims("a\"b@c.com", 1000, 10).is_none());
    assert!(is_plain_subject("a.b+c@d-e.com"));
    assert!(!is_plain_subject("a b"));
}

#[test]
fn token_expiry_boundary() {
    let c = issue_claims("a@b.com", 1000, 86400).unwrap();
    assert_eq!(check_expiry(&c, 1000), Ok(()));
    assert_eq!(check_expiry(&c, 87399), Ok(()));
    assert_eq!(check_expiry(&c, 87400), Err(TokenError::TokenExpired));
    assert_eq!(check_expiry(&c, 90000), Err(TokenError::TokenExpired));
}

#[test]
fn issued_token_carries_claims() {
    let secret = b"k1";
    let t = issue_token(secret, "a@b.com", 1000, 60).unwrap();
    assert_eq!(t.split('.').count(), 3);
    assert!(!t.contains("a@b.com"));
    let claims = decoded_claims(&t, secret);
    assert_eq!(claims["sub"], "a@b.com");
    assert_eq!(claims["iat"], 1000);
    assert_eq!(claims["exp"], 1060);
    assert_eq!(issue_token(secret, "a@b.com", 1000, 0), Err(TokenError::TokenInvalid));
}

#[test]
fn store_refuses_duplicate() {
    let mut s = UserStore::new();
    let u = |e: &str, h: &str| User { email: e.to_string(), password_hash: h.to_string() };
    assert_eq!(s.insert(u("a@b.com", "h1")), Ok(()));
    assert_eq!(s.insert(u("a@b.com", "h2")), Err(StoreError::DuplicateKey));
    assert_eq!(s.insert(u("c@d.com", "h3")), Ok(()));
    assert_eq!(s.len(), 2);
    assert_eq!(s.find_by_email(&"a@b.com".to_string()).unwrap().password_hash, "h1");
    assert!(s.find_by_email(&"x@y.com".to_string()).is_none());
}

#[test]
fn register_twice_conflicts() {
    let cfg = config();
    let mut store = UserStore::new();
    let token = register_at(&mut store, &request("a@b.com", "Secret123!"), &cfg, 5000).unwrap();
    assert_eq!(token.split('.').count(), 3);
    let claims = decoded_claims(&token, &cfg.secret);
    assert_eq!(claims["sub"], "a@b.com");
    assert_eq!(claims["exp"], 5000 + 86400);
    let again = register_at(&mut store, &request("a@b.com", "Secret123!"), &cfg, 5001);
    assert_eq!(again, Err(RegisterError::EmailAlreadyRegistered));
    assert_eq!(again.unwrap_err().status(), 409);
    assert_eq!(RegisterError::EmailAlreadyRegistered.code(), "EmailAlreadyRegistered");
    assert_eq!(store.len(), 1);
    let stored = store.find_by_email(&"a@b.com".to_string()).unwrap();
    assert_eq!(verify_password("Secret123!", &stored.password_hash), Ok(true));
}

#[test]
fn duplicate_leaves_record_unchanged() {
    let cfg = config();
    let mut store = UserStore::new();
    register_at(&mut store, &request("a@b.com", "Secret123!"), &cfg, 1).unwrap();
    let before = store.find_by_email(&"a@b.com".to_string()).unwrap().password_hash.clone();
    let r = register_at(&mut store, &request("A@B.com", "Other4567x"), &cfg, 2);
    assert_eq!(r, Err(RegisterError::EmailAlreadyRegistered));
    let after = store.find_by_email(&"a@b.com".to_string()).unwrap().password_hash.clone();
    assert_eq!(before, after);
    assert_eq!(store.len(), 1);
}

#[test]
fn many_registrations_one_winner() {
    let cfg = config();
    let mut store = UserStore::new();
    let mut wins = 0;
    let mut conflicts = 0;
    for _ in 0..5 {
        match register_at(&mut store, &request("same@b.com", "Secret123!"), &cfg, 10) {
            Ok(_) => wins += 1,
            Err(RegisterError::EmailAlreadyRegistered) => conflicts += 1,
            Err(e) => panic!("unexpected {:?}", e),
        }
    }
    assert_eq!((wins, conflicts), (1, 4));
}

#[test]
fn invalid_input_touches_nothing() {
    let cfg = config();
    let mut store = UserStore::new();
    let r = register_at(&mut store, &request("not-an-email", "Secret123!"), &cfg, 1);
    assert_eq!(r, Err(RegisterError::InvalidInput));
    assert_eq!(r.unwrap_err().status(), 400);
    let r = register_at(&mut store, &request("a@b.com", "short"), &cfg, 1);
    assert_eq!(r, Err(RegisterError::InvalidInput));
    assert_eq!(store.len(), 0);
}

#[test]
fn bad_config_is_internal() {
    let mut cfg = config();
    cfg.cost = 2;
    let mut store = UserStore::new();
    let r = register_at(&mut store, &request("a@b.com", "Secret123!"), &cfg, 1);
    assert_eq!(r, Err(RegisterError::InternalError));
    assert_eq!(r.unwrap_err().status(), 500);
    assert_eq!(store.len(), 0);
    let mut cfg = config();
    cfg.ttl_secs = 0;
    let r = register_at(&mut store, &request("a@b.com", "Secret123!"), &cfg, 1);
    assert_eq!(r, Err(RegisterError::InternalError));
}

#[test]
fn overlong_password_is_internal() {
    let cfg = config();
    let mut store = UserStore::new();
    let long = "a1".repeat(37);
    let r = register_at(&mut store, &request("a@b.com", &long), &cfg, 1);
    assert_eq!(r, Err(RegisterError::InternalError));
    assert_eq!(store.len(), 0);
    let fits = "a1".repeat(36);
    assert!(register_at(&mut store, &request("a@b.com", &fits), &cfg, 1).is_ok());
}

#[test]
fn stored_hash_always_readable() {
    let h = hash_password("Secret123!", 4).unwrap();
    assert_eq!(verify_password("", &h), Ok(false));
    assert_eq!(verify_password("completely different", &h), Ok(false));
}

#[test]
fn prepare_then_finish() {
    let cfg = config();
    let p = prepare_registration(&request("Mixed@Case.org", "Secret123!"), &cfg, 7).unwrap();
    assert_eq!(p.user.email, "mixed@case.org");
    assert_eq!(verify_password("Secret123!", &p.user.password_hash), Ok(true));
    let token = p.token.clone();
    assert_eq!(finish_registration(p.token, InsertOutcome::Inserted), Ok(token));
    assert_eq!(
        finish_registration(String::new(), InsertOutcome::DuplicateKey),
        Err(RegisterError::EmailAlreadyRegistered)
    );
    assert_eq!(
        finish_registration(String::new(), InsertOutcome::Failed),
        Err(RegisterError::InternalError)
    );
}
