use register_service::token::{
    claims_json, issue_token, parse_claims, verify_token, Claims, TokenError,
};

#[test]
fn claims_read_back() {
    let c = Claims { sub: "x.y+z@q-r.io".to_string(), iat: 7, exp: 18446744073709551615 };
    let back = parse_claims(&claims_json(&c)).unwrap();
    assert_eq!(back.sub, c.sub);
    assert_eq!((back.iat, back.exp), (7, u64::MAX));
    let p = parse_claims("{\"sub\":\"a@b.com\",\"iat\":100,\"exp\":86500}").unwrap();
    assert_eq!((p.sub.as_str(), p.iat, p.exp), ("a@b.com", 100, 86500));
}

#[test]
fn claims_other_text_refused() {
    assert!(parse_claims("").is_none());
    assert!(parse_claims("{\"sub\":\"a@b.com\",\"iat\":01,\"exp\":2}").is_none());
    assert!(parse_claims("{\"sub\":\"a@b.com\",\"iat\":1,\"exp\":2} ").is_none());
    assert!(parse_claims("{\"sub\":\"a@b.com\",\"iat\":1,\"exp\":2").is_none());
    assert!(parse_claims("{\"sub\":\"a@b.com\", \"iat\":1,\"exp\":2}").is_none());
    assert!(parse_claims("{\"sub\":\"a@b.com\",\"iat\":1,\"exp\":18446744073709551616}").is_none());
    assert!(parse_claims("{\"sub\":\"a b\",\"iat\":1,\"exp\":2}").is_none());
    assert!(parse_claims("{\"sub\":\"a@b.com\",\"iat\":,\"exp\":2}").is_none());
    assert!(parse_claims("{\"exp\":2,\"sub\":\"a@b.com\",\"iat\":1}").is_none());
}

#[test]
fn token_valid_until_expiry() {
    let secret = b"k1";
    let t = issue_token(secret, "a@b.com", 1000, 60).unwrap();
    let c = verify_token(secret, &t, 1000).unwrap();
    assert_eq!((c.sub.as_str(), c.iat, c.exp), ("a@b.com", 1000, 1060));
    assert!(verify_token(secret, &t, 1059).is_ok());
    assert_eq!(verify_token(secret, &t, 1060).err(), Some(TokenError::TokenExpired));
    assert_eq!(verify_token(secret, &t, 5000).err(), Some(TokenError::TokenExpired));
}

#[test]
fn day_long_token() {
    let secret = b"day";
    let t = issue_token(secret, "a@b.com", 1_700_000_000, 86400).unwrap();
    assert!(verify_token(secret, &t, 1_700_000_000).is_ok());
    assert!(verify_token(secret, &t, 1_700_086_399).is_ok());
    assert_eq!(verify_token(secret, &t, 1_700_086_400).err(), Some(TokenError::TokenExpired));
}

#[test]
fn token_wrong_key_or_tampered() {
    let t = issue_token(b"k1", "a@b.com", 1000, 60).unwrap();
    assert_eq!(verify_token(b"k2", &t, 1000).err(), Some(TokenError::TokenInvalid));
    let mut bad = t.clone();
    bad.push('x');
    assert_eq!(verify_token(b"k1", &bad, 1000).err(), Some(TokenError::TokenInvalid));
    assert_eq!(verify_token(b"k1", "not.a.token", 1000).err(), Some(TokenError::TokenInvalid));
    assert_eq!(verify_token(b"k1", "", 1000).err(), Some(TokenError::TokenInvalid));
}

#[test]
fn token_with_foreign_claims_refused() {
    let mut m = std::collections::BTreeMap::new();
    m.insert("sub".to_string(), serde_json::Value::from("a@b.com"));
    m.insert("exp".to_string(), serde_json::Value::from(2000u64));
    let key = jsonwebtoken::EncodingKey::from_secret(b"k1");
    let t = jsonwebtoken::encode(&jsonwebtoken::Header::default(), &m, &key).unwrap();
    assert_eq!(verify_token(b"k1", &t, 1000).err(), Some(TokenError::TokenInvalid));
}
