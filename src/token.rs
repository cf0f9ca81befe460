//! Session tokens: claims naming a subject and a validity window, signed
//! with a server-held secret.

use vstd::prelude::*;
use crate::policy::is_local_char;
use crate::text::{
    decimal, decimal_value, digit_value, is_ascii_digit, lemma_decimal_shape, push_decimal,
};

verus! {

/// Seconds in the default token lifetime of one day.
pub const DEFAULT_TTL_SECS: u64 = 86400;

/// Why a token could not be issued or accepted.
#[derive(Clone, Copy, Debug, PartialEq, Eq, Structural)]
pub enum TokenError {
    /// Bad signature, unreadable token, or claims that cannot be issued.
    TokenInvalid,
    /// The token's expiry instant has passed.
    TokenExpired,
}

/// What a token asserts: a subject and the window in which it is valid,
/// in seconds since the Unix epoch.
pub struct Claims {
    pub sub: String,
    pub iat: u64,
    pub exp: u64,
}

/// Characters that a subject may hold; none of them needs escaping in JSON.
pub open spec fn is_subject_char(c: char) -> bool {
    is_local_char(c) || c == '@'
}

pub open spec fn plain_subject(s: Seq<char>) -> bool {
    forall|i: int| 0 <= i < s.len() ==> #[trigger] is_subject_char(s[i])
}

/// Text before the subject in the claims JSON.
pub open spec fn sub_open() -> Seq<char> {
    seq!['{', '"', 's', 'u', 'b', '"', ':', '"']
}

/// Text between the subject and the issue time.
pub open spec fn iat_open() -> Seq<char> {
    seq!['"', ',', '"', 'i', 'a', 't', '"', ':']
}

/// Text between the issue time and the expiry time.
pub open spec fn exp_open() -> Seq<char> {
    seq![',', '"', 'e', 'x', 'p', '"', ':']
}

/// The JSON text of a set of claims, with the fields in a fixed order.
#[verifier::opaque]
pub open spec fn claims_text(sub: Seq<char>, iat: nat, exp: nat) -> Seq<char> {
    sub_open() + sub + iat_open() + decimal(iat) + exp_open() + decimal(exp) + seq!['}']
}

/// What decoding `token` under `secret` gives: the JSON text of its claims
/// where the signature is good, `None` otherwise.
pub uninterp spec fn jwt_payload(token: Seq<char>, secret: Seq<u8>) -> Option<Seq<char>>;

/// Relies on `jsonwebtoken::encode` with the default HS256 header: the
/// claims text is signed as given, so decoding the token under the same
/// secret hands that text back (it holds an `exp`, as decoding asks). The
/// text is valid JSON and the key is an HMAC key, as the header asks, so
/// signing does not fail.
#[verifier::external_body]
fn jwt_sign(payload: &str, secret: &[u8]) -> (r: Option<String>)
    requires
        is_claims_text(payload@),
    ensures
        r is Some,
        r matches Some(t) ==> jwt_payload(t@, secret@) == Some(payload@),
{
    let raw = serde_json::value::RawValue::from_string(payload.to_string()).ok()?;
    let key = jsonwebtoken::EncodingKey::from_secret(secret);
    jsonwebtoken::encode(&jsonwebtoken::Header::default(), &raw, &key).ok()
}

/// Relies on `jsonwebtoken::decode` with HS256 and its own expiry check
/// switched off: the claims text of a token whose signature is good.
#[verifier::external_body]
fn jwt_decode(token: &str, secret: &[u8]) -> (r: Option<String>)
    ensures
        r matches Some(p) ==> jwt_payload(token@, secret@) == Some(p@),
        r is None ==> jwt_payload(token@, secret@) is None,
{
    let mut validation = jsonwebtoken::Validation::new(jsonwebtoken::Algorithm::HS256);
    validation.validate_exp = false;
    let key = jsonwebtoken::DecodingKey::from_secret(secret);
    let data = jsonwebtoken::decode::<Box<serde_json::value::RawValue>>(token, &key, &validation);
    data.ok().map(|d| d.claims.get().to_string())
}

fn is_subject_char_exec(c: char) -> (r: bool)
    ensures
        r == is_subject_char(c),
{
    ('a' <= c && c <= 'z') || ('A' <= c && c <= 'Z') || ('0' <= c && c <= '9') || c == '.' || c
        == '_' || c == '%' || c == '+' || c == '-' || c == '@'
}

/// Whether `s` can stand as a token subject.
pub fn is_plain_subject(s: &str) -> (r: bool)
    ensures
        r == plain_subject(s@),
{
    let n = s.unicode_len();
    let mut i: usize = 0;
    while i < n
        invariant
            n == s@.len(),
            i <= n,
            forall|j: int| 0 <= j < i ==> #[trigger] is_subject_char(s@[j]),
        decreases n - i,
    {
        if !is_subject_char_exec(s.get_char(i)) {
            return false;
        }
        i = i + 1;
    }
    true
}

/// Whether claims for `sub` can be issued at `now` for `ttl` seconds.
pub open spec fn issuable(sub: Seq<char>, now: u64, ttl: u64) -> bool {
    &&& plain_subject(sub)
    &&& ttl > 0
    &&& now + ttl <= u64::MAX
}

/// Claims for `sub`, issued at `now` and expiring `ttl` seconds later.
pub fn issue_claims(sub: &str, now: u64, ttl: u64) -> (r: Option<Claims>)
    ensures
        r is Some <==> issuable(sub@, now, ttl),
        r matches Some(c) ==> c.sub@ == sub@ && c.iat == now && c.exp == now + ttl,
{
    if ttl == 0 || ttl > u64::MAX - now || !is_plain_subject(sub) {
        return None;
    }
    Some(Claims { sub: sub.to_owned(), iat: now, exp: now + ttl })
}

/// The JSON text of `c`.
pub fn claims_json(c: &Claims) -> (r: String)
    ensures
        r@ == claims_text(c.sub@, c.iat as nat, c.exp as nat),
{
    let mut r = String::from_str("{\"sub\":\"");
    r.append(c.sub.as_str());
    r.append("\",\"iat\":");
    push_decimal(&mut r, c.iat);
    r.append(",\"exp\":");
    push_decimal(&mut r, c.exp);
    r.append("}");
    proof {
        reveal(claims_text);
        reveal_strlit("{\"sub\":\"");
        reveal_strlit("\",\"iat\":");
        reveal_strlit(",\"exp\":");
        reveal_strlit("}");
        assert("{\"sub\":\""@ =~= sub_open());
        assert("\",\"iat\":"@ =~= iat_open());
        assert(",\"exp\":"@ =~= exp_open());
        assert("}"@ =~= seq!['}']);
    }
    r
}

/// Whether `s` is the JSON text of some claims with a plain subject.
pub open spec fn is_claims_text(s: Seq<char>) -> bool {
    exists|sub: Seq<char>, iat: u64, exp: u64|
        plain_subject(sub) && s == #[trigger] claims_text(sub, iat as nat, exp as nat)
}

/// Where each part of a claims text stands.
proof fn lemma_claims_layout(s: Seq<char>, sub: Seq<char>, iat: u64, exp: u64)
    requires
        plain_subject(sub),
        s == claims_text(sub, iat as nat, exp as nat),
    ensures
        ({
            let b = 8 + sub.len();
            let c = b + 8;
            let d = c + decimal(iat as nat).len();
            let e = d + 7;
            let f = e + decimal(exp as nat).len();
            &&& s.len() == f + 1
            &&& c < d && e < f
            &&& s.subrange(0, 8) == sub_open()
            &&& s.subrange(8, b as int) == sub
            &&& forall|j: int| 8 <= j < b ==> s[j] != '"'
            &&& s[b as int] == '"'
            &&& s.subrange(b as int, c as int) == iat_open()
            &&& forall|j: int| c <= j < d ==> is_ascii_digit(#[trigger] s[j])
            &&& s[d as int] == ','
            &&& s.subrange(c as int, d as int) == decimal(iat as nat)
            &&& s.subrange(d as int, e as int) == exp_open()
            &&& forall|j: int| e <= j < f ==> is_ascii_digit(#[trigger] s[j])
            &&& s[f as int] == '}'
            &&& s.subrange(e as int, f as int) == decimal(exp as nat)
        }),
{
    reveal(claims_text);
    lemma_decimal_shape(iat as nat);
    lemma_decimal_shape(exp as nat);
    let d1 = decimal(iat as nat);
    let d2 = decimal(exp as nat);
    let b = 8 + sub.len();
    let c = b + 8;
    let d = c + d1.len();
    let e = d + 7;
    let f = e + d2.len();
    assert(s.subrange(0, 8) =~= sub_open());
    assert(s.subrange(8, b as int) =~= sub);
    assert(s.subrange(b as int, c as int) =~= iat_open());
    assert(s.subrange(c as int, d as int) =~= d1);
    assert(s.subrange(d as int, e as int) =~= exp_open());
    assert(s.subrange(e as int, f as int) =~= d2);
    assert forall|j: int| 8 <= j < b implies s[j] != '"' by {
        assert(s[j] == sub[j - 8]);
        assert(is_subject_char(sub[j - 8]));
    }
    assert forall|j: int| c <= j < d implies is_ascii_digit(#[trigger] s[j]) by {
        assert(s[j] == d1[j - c]);
    }
    assert forall|j: int| e <= j < f implies is_ascii_digit(#[trigger] s[j]) by {
        assert(s[j] == d2[j - e]);
    }
}

/// Two claims with one text are the same claims.
pub proof fn lemma_claims_text_injective(
    sub1: Seq<char>,
    iat1: u64,
    exp1: u64,
    sub2: Seq<char>,
    iat2: u64,
    exp2: u64,
)
    requires
        plain_subject(sub1),
        plain_subject(sub2),
        claims_text(sub1, iat1 as nat, exp1 as nat) == claims_text(sub2, iat2 as nat, exp2 as nat),
    ensures
        sub1 == sub2,
        iat1 == iat2,
        exp1 == exp2,
{
    let s = claims_text(sub1, iat1 as nat, exp1 as nat);
    lemma_claims_layout(s, sub1, iat1, exp1);
    lemma_claims_layout(s, sub2, iat2, exp2);
    lemma_decimal_shape(iat1 as nat);
    lemma_decimal_shape(iat2 as nat);
    lemma_decimal_shape(exp1 as nat);
    lemma_decimal_shape(exp2 as nat);
    let b1 = 8 + sub1.len();
    let b2 = 8 + sub2.len();
    if b1 < b2 {
        assert(s[b1 as int] != '"');
    } else if b2 < b1 {
        assert(s[b2 as int] != '"');
    }
    assert(b1 == b2);
    let c = b1 + 8;
    let d1 = c + decimal(iat1 as nat).len();
    let d2 = c + decimal(iat2 as nat).len();
    if d1 < d2 {
        assert(is_ascii_digit(s[d1 as int]));
    } else if d2 < d1 {
        assert(is_ascii_digit(s[d2 as int]));
    }
    assert(d1 == d2);
    assert(decimal(iat1 as nat) == decimal(iat2 as nat));
    assert(decimal(exp1 as nat) == decimal(exp2 as nat));
}

/// Whether `lit` stands in `s` at position `at`.
fn matches_at(s: &str, at: usize, lit: &str) -> (r: bool)
    ensures
        r == (at + lit@.len() <= s@.len() && s@.subrange(at as int, at + lit@.len()) == lit@),
{
    let n = s.unicode_len();
    let m = lit.unicode_len();
    if at > n || m > n - at {
        return false;
    }
    let mut i: usize = 0;
    while i < m
        invariant
            n == s@.len(),
            m == lit@.len(),
            at + m <= n,
            i <= m,
            forall|j: int| 0 <= j < i ==> s@[at + j] == lit@[j],
        decreases m - i,
    {
        if s.get_char(at + i) != lit.get_char(i) {
            proof {
                assert(s@.subrange(at as int, at + m)[i as int] != lit@[i as int]);
            }
            return false;
        }
        i = i + 1;
    }
    proof {
        assert(s@.subrange(at as int, at + m) =~= lit@);
    }
    true
}

/// First position from `from` on where `c` stands, or the length of `s`.
fn find_char(s: &str, from: usize, c: char) -> (r: usize)
    requires
        from <= s@.len(),
    ensures
        from <= r <= s@.len(),
        forall|j: int| from <= j < r ==> s@[j] != c,
        r < s@.len() ==> s@[r as int] == c,
{
    let n = s.unicode_len();
    let mut i = from;
    while i < n && s.get_char(i) != c
        invariant
            n == s@.len(),
            from <= i <= n,
            forall|j: int| from <= j < i ==> s@[j] != c,
        decreases n - i,
    {
        i = i + 1;
    }
    i
}

/// Whether a digit stands at position `i` of `s`.
fn digit_at(s: &str, i: usize) -> (r: bool)
    ensures
        r == (i < s@.len() && is_ascii_digit(s@[i as int])),
{
    if i < s.unicode_len() {
        let ch = s.get_char(i);
        '0' <= ch && ch <= '9'
    } else {
        false
    }
}

/// The run of digits from `from` on: where it ends, and its value where
/// that fits in a `u64`.
fn scan_digits(s: &str, from: usize) -> (r: (usize, Option<u64>))
    requires
        from <= s@.len(),
    ensures
        from <= r.0 <= s@.len(),
        forall|j: int| from <= j < r.0 ==> is_ascii_digit(#[trigger] s@[j]),
        r.0 < s@.len() ==> !is_ascii_digit(s@[r.0 as int]),
        r.1 matches Some(v) ==> v == decimal_value(s@.subrange(from as int, r.0 as int)),
        r.1 is None ==> decimal_value(s@.subrange(from as int, r.0 as int)) > u64::MAX,
{
    let n = s.unicode_len();
    let mut i = from;
    let mut v: u64 = 0;
    let mut overflow = false;
    proof {
        assert(s@.subrange(from as int, from as int) =~= Seq::<char>::empty());
    }
    while digit_at(s, i)
        invariant
            n == s@.len(),
            from <= i <= n,
            forall|j: int| from <= j < i ==> is_ascii_digit(#[trigger] s@[j]),
            !overflow ==> v == decimal_value(s@.subrange(from as int, i as int)),
            overflow ==> decimal_value(s@.subrange(from as int, i as int)) > u64::MAX,
        decreases n - i,
    {
        let ch = s.get_char(i);
        let dig = ((ch as u32) - ('0' as u32)) as u64;
        proof {
            let next = s@.subrange(from as int, i + 1);
            assert(next.drop_last() =~= s@.subrange(from as int, i as int));
            assert(next.last() == ch);
            assert(decimal_value(next) == decimal_value(next.drop_last()) * 10 + digit_value(ch));
        }
        if !overflow {
            if v > (u64::MAX - dig) / 10 {
                assert(v * 10 + dig > u64::MAX) by (nonlinear_arith)
                    requires
                        v > (u64::MAX - dig) / 10,
                        dig <= 9,
                ;
                overflow = true;
            } else {
                assert(v * 10 + dig <= u64::MAX) by (nonlinear_arith)
                    requires
                        v <= (u64::MAX - dig) / 10,
                        dig <= 9,
                ;
                v = v * 10 + dig;
            }
        }
        i = i + 1;
    }
    if overflow {
        (i, None)
    } else {
        (i, Some(v))
    }
}

/// The claims that a claims text was written from.
pub open spec fn claims_witness(s: Seq<char>) -> (Seq<char>, u64, u64) {
    choose|sub: Seq<char>, iat: u64, exp: u64|
        plain_subject(sub) && s == #[trigger] claims_text(sub, iat as nat, exp as nat)
}

proof fn lemma_literals()
    ensures
        "{\"sub\":\""@ == sub_open(),
        "\",\"iat\":"@ == iat_open(),
        ",\"exp\":"@ == exp_open(),
{
    reveal_strlit("{\"sub\":\"");
    reveal_strlit("\",\"iat\":");
    reveal_strlit(",\"exp\":");
    assert("{\"sub\":\""@ =~= sub_open());
    assert("\",\"iat\":"@ =~= iat_open());
    assert(",\"exp\":"@ =~= exp_open());
}

/// Where the subject of a claims text stands and what follows it.
proof fn lemma_subject_layout(s: Seq<char>)
    requires
        is_claims_text(s),
    ensures
        ({
            let b = 8 + claims_witness(s).0.len();
            &&& b + 8 < s.len()
            &&& s.subrange(0, 8) == sub_open()
            &&& s.subrange(8, b as int) == claims_witness(s).0
            &&& forall|j: int| 8 <= j < b ==> s[j] != '"'
            &&& s[b as int] == '"'
            &&& s.subrange(b as int, (b + 8) as int) == iat_open()
        }),
{
    let w = claims_witness(s);
    lemma_claims_layout(s, w.0, w.1, w.2);
}

/// Where the two times of a claims text stand.
proof fn lemma_times_layout(s: Seq<char>)
    requires
        is_claims_text(s),
    ensures
        ({
            let w = claims_witness(s);
            let c = 8 + w.0.len() + 8;
            let d = c + decimal(w.1 as nat).len();
            let e = d + 7;
            let f = e + decimal(w.2 as nat).len();
            &&& s.len() == f + 1
            &&& c < d && e < f
            &&& forall|j: int| c <= j < d ==> is_ascii_digit(#[trigger] s[j])
            &&& s[d as int] == ','
            &&& decimal_value(s.subrange(c as int, d as int)) == w.1
            &&& s.subrange(d as int, e as int) == exp_open()
            &&& forall|j: int| e <= j < f ==> is_ascii_digit(#[trigger] s[j])
            &&& s[f as int] == '}'
            &&& decimal_value(s.subrange(e as int, f as int)) == w.2
        }),
{
    let w = claims_witness(s);
    lemma_claims_layout(s, w.0, w.1, w.2);
    lemma_decimal_shape(w.1 as nat);
    lemma_decimal_shape(w.2 as nat);
}

/// Where the subject of a claims text ends.
fn locate_subject(s: &str) -> (r: Option<usize>)
    ensures
        r matches Some(b) ==> 8 <= b && b + 8 <= s@.len(),
        is_claims_text(s@) ==> (r matches Some(b) && b == 8 + claims_witness(s@).0.len()),
{
    proof {
        lemma_literals();
        if is_claims_text(s@) {
            lemma_subject_layout(s@);
        }
    }
    if !matches_at(s, 0, "{\"sub\":\"") {
        return None;
    }
    let b = find_char(s, 8, '"');
    if !matches_at(s, b, "\",\"iat\":") {
        return None;
    }
    Some(b)
}

/// The two times of a claims text whose subject ends at `b`.
fn locate_times(s: &str, b: usize) -> (r: Option<(u64, u64)>)
    requires
        8 <= b,
        b + 8 <= s@.len(),
    ensures
        is_claims_text(s@) && b == 8 + claims_witness(s@).0.len() ==> r == Some(
            (claims_witness(s@).1, claims_witness(s@).2),
        ),
{
    proof {
        lemma_literals();
        if is_claims_text(s@) && b == 8 + claims_witness(s@).0.len() {
            lemma_times_layout(s@);
        }
    }
    let n = s.unicode_len();
    let c = b + 8;
    let (d, iat) = scan_digits(s, c);
    if d == c {
        return None;
    }
    let iat = match iat {
        Some(v) => v,
        None => return None,
    };
    if !matches_at(s, d, ",\"exp\":") {
        return None;
    }
    let e = d + 7;
    let (f, exp) = scan_digits(s, e);
    if f == e {
        return None;
    }
    let exp = match exp {
        Some(v) => v,
        None => return None,
    };
    if f >= n || f + 1 != n || s.get_char(f) != '}' {
        return None;
    }
    Some((iat, exp))
}

/// Where the subject of a claims text ends, and its two times.
fn locate_claims(s: &str) -> (r: Option<(usize, u64, u64)>)
    ensures
        r matches Some((b, _, _)) ==> 8 <= b <= s@.len(),
        is_claims_text(s@) ==> (r matches Some((b, iat, exp)) && plain_subject(
            s@.subrange(8, b as int),
        ) && s@ == claims_text(s@.subrange(8, b as int), iat as nat, exp as nat)),
{
    let b = match locate_subject(s) {
        Some(b) => b,
        None => return None,
    };
    let (iat, exp) = match locate_times(s, b) {
        Some(t) => t,
        None => return None,
    };
    proof {
        if is_claims_text(s@) {
            lemma_subject_layout(s@);
        }
    }
    Some((b, iat, exp))
}

/// Reads claims back from their JSON text; only the exact text that
/// `claims_json` writes is accepted.
pub fn parse_claims(s: &str) -> (r: Option<Claims>)
    ensures
        r is Some <==> is_claims_text(s@),
        r matches Some(c) ==> plain_subject(c.sub@) && s@ == claims_text(
            c.sub@,
            c.iat as nat,
            c.exp as nat,
        ),
{
    let (b, iat, exp) = match locate_claims(s) {
        Some(p) => p,
        None => return None,
    };
    let sub = s.substring_char(8, b);
    if !is_plain_subject(sub) {
        return None;
    }
    let claims = Claims { sub: String::from_str(sub), iat, exp };
    let text = claims_json(&claims);
    let whole = String::from_str(s);
    if text == whole {
        Some(claims)
    } else {
        None
    }
}

/// Outcome of checking the expiry of a token that ends at `exp`, at time `now`.
pub open spec fn expiry_result(exp: u64, now: u64) -> Result<(), TokenError> {
    if now < exp {
        Ok(())
    } else {
        Err(TokenError::TokenExpired)
    }
}

/// A token is valid strictly before its expiry instant.
pub fn check_expiry(c: &Claims, now: u64) -> (r: Result<(), TokenError>)
    ensures
        r == expiry_result(c.exp, now),
{
    if now < c.exp {
        Ok(())
    } else {
        Err(TokenError::TokenExpired)
    }
}

/// Signs claims for `sub`, valid from `now` for `ttl` seconds, with `secret`.
pub fn issue_token(secret: &[u8], sub: &str, now: u64, ttl: u64) -> (r: Result<String, TokenError>)
    ensures
        !issuable(sub@, now, ttl) ==> r == Err::<String, TokenError>(TokenError::TokenInvalid),
        issuable(sub@, now, ttl) ==> r is Ok,
        r matches Ok(t) ==> jwt_payload(t@, secret@) == Some(
            claims_text(sub@, now as nat, (now + ttl) as nat),
        ),
{
    let c = match issue_claims(sub, now, ttl) {
        Some(c) => c,
        None => return Err(TokenError::TokenInvalid),
    };
    let payload = claims_json(&c);
    assert(plain_subject(c.sub@) && payload@ == claims_text(c.sub@, c.iat as nat, c.exp as nat));
    match jwt_sign(payload.as_str(), secret) {
        Some(t) => Ok(t),
        None => Err(TokenError::TokenInvalid),
    }
}

/// Outcome of checking a token whose decoded claims text is `payload`, at
/// time `now`.
pub open spec fn token_verdict(payload: Option<Seq<char>>, now: u64) -> Result<(), TokenError> {
    match payload {
        None => Err(TokenError::TokenInvalid),
        Some(p) => if is_claims_text(p) {
            let (sub, iat, exp) = choose|sub: Seq<char>, iat: u64, exp: u64|
                plain_subject(sub) && p == #[trigger] claims_text(sub, iat as nat, exp as nat);
            expiry_result(exp, now)
        } else {
            Err(TokenError::TokenInvalid)
        },
    }
}

/// Checks the signature of `token` under `secret`, reads its claims and
/// checks that `now` lies before their expiry instant.
pub fn verify_token(secret: &[u8], token: &str, now: u64) -> (r: Result<Claims, TokenError>)
    ensures
        r is Ok <==> token_verdict(jwt_payload(token@, secret@), now) is Ok,
        r matches Err(e) ==> token_verdict(jwt_payload(token@, secret@), now) == Err::<(), TokenError>(e),
        r matches Ok(c) ==> plain_subject(c.sub@) && now < c.exp && jwt_payload(token@, secret@)
            == Some(claims_text(c.sub@, c.iat as nat, c.exp as nat)),
{
    let payload = match jwt_decode(token, secret) {
        Some(p) => p,
        None => return Err(TokenError::TokenInvalid),
    };
    let c = match parse_claims(payload.as_str()) {
        Some(c) => c,
        None => return Err(TokenError::TokenInvalid),
    };
    proof {
        let (sub, iat, exp) = choose|sub: Seq<char>, iat: u64, exp: u64|
            plain_subject(sub) && payload@ == #[trigger] claims_text(sub, iat as nat, exp as nat);
        lemma_claims_text_injective(sub, iat, exp, c.sub@, c.iat, c.exp);
    }
    match check_expiry(&c, now) {
        Ok(()) => Ok(c),
        Err(e) => Err(e),
    }
}

/// A token signed for `sub` at `now` with lifetime `ttl` is accepted at
/// every instant from `now` up to, not including, `now + ttl`, and is
/// expired, never otherwise refused, from then on.
pub proof fn lemma_issued_token_lifetime(
    token: Seq<char>,
    secret: Seq<u8>,
    sub: Seq<char>,
    now: u64,
    ttl: u64,
    t: u64,
)
    requires
        issuable(sub, now, ttl),
        jwt_payload(token, secret) == Some(claims_text(sub, now as nat, (now + ttl) as nat)),
    ensures
        now <= t < now + ttl ==> token_verdict(jwt_payload(token, secret), t) is Ok,
        t >= now + ttl ==> token_verdict(jwt_payload(token, secret), t) == Err::<(), TokenError>(
            TokenError::TokenExpired,
        ),
{
    let p = claims_text(sub, now as nat, (now + ttl) as nat);
    let exp = (now + ttl) as u64;
    assert(p == claims_text(sub, now as nat, exp as nat));
    assert(is_claims_text(p));
    let (s2, i2, e2) = choose|s2: Seq<char>, i2: u64, e2: u64|
        plain_subject(s2) && p == #[trigger] claims_text(s2, i2 as nat, e2 as nat);
    lemma_claims_text_injective(sub, now, exp, s2, i2, e2);
}

} // verus!
