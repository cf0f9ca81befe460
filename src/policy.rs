//! Input policy: which emails are well formed, how they are normalised,
//! and which passwords are acceptable.

use vstd::prelude::*;
use crate::text::{is_ascii_digit, is_ascii_letter, push_char, to_lower};

verus! {

/// Characters allowed before the `@` of an email.
pub open spec fn is_local_char(c: char) -> bool {
    is_ascii_letter(c) || is_ascii_digit(c) || c == '.' || c == '_' || c == '%' || c == '+'
        || c == '-'
}

/// Characters allowed after the `@` of an email.
pub open spec fn is_domain_char(c: char) -> bool {
    is_ascii_letter(c) || is_ascii_digit(c) || c == '.' || c == '-'
}

pub open spec fn valid_local(s: Seq<char>) -> bool {
    &&& s.len() > 0
    &&& forall|i: int| 0 <= i < s.len() ==> #[trigger] is_local_char(s[i])
}

/// A domain: allowed characters only, at least one dot, and no dot at
/// either end.
pub open spec fn valid_domain(s: Seq<char>) -> bool {
    &&& s.len() > 0
    &&& forall|i: int| 0 <= i < s.len() ==> #[trigger] is_domain_char(s[i])
    &&& s[0] != '.'
    &&& s.last() != '.'
    &&& exists|i: int| 0 <= i < s.len() && s[i] == '.'
}

/// An email is a valid local part, one `@`, and a valid domain.
pub open spec fn valid_email(s: Seq<char>) -> bool {
    exists|k: int|
        0 <= k < s.len() && s[k] == '@' && valid_local(#[trigger] s.subrange(0, k)) && valid_domain(
            s.subrange(k + 1, s.len() as int),
        )
}

/// The key under which an email is stored: ASCII letters in lower case.
pub open spec fn normalized_email(s: Seq<char>) -> Seq<char> {
    s.map_values(|c: char| to_lower(c))
}

fn is_local_char_exec(c: char) -> (r: bool)
    ensures
        r == is_local_char(c),
{
    ('a' <= c && c <= 'z') || ('A' <= c && c <= 'Z') || ('0' <= c && c <= '9') || c == '.' || c
        == '_' || c == '%' || c == '+' || c == '-'
}

fn is_domain_char_exec(c: char) -> (r: bool)
    ensures
        r == is_domain_char(c),
{
    ('a' <= c && c <= 'z') || ('A' <= c && c <= 'Z') || ('0' <= c && c <= '9') || c == '.' || c
        == '-'
}

/// Whether `s` is a well-formed email address.
pub fn is_valid_email(s: &str) -> (r: bool)
    ensures
        r == valid_email(s@),
{
    let n = s.unicode_len();
    let mut k: usize = 0;
    while k < n && s.get_char(k) != '@'
        invariant
            n == s@.len(),
            k <= n,
            forall|j: int| 0 <= j < k ==> s@[j] != '@',
        decreases n - k,
    {
        k = k + 1;
    }
    if k == 0 || k == n {
        proof {
            assert forall|j: int| 0 <= j < s@.len() && s@[j] == '@' implies !valid_local(
                #[trigger] s@.subrange(0, j),
            ) by {
                if k == 0 {
                    assert(s@.subrange(0, j).len() == 0 || s@.subrange(0, j)[0] == s@[0]);
                    if j > 0 {
                        assert(!is_local_char(s@.subrange(0, j)[0]));
                    }
                }
            }
        }
        return false;
    }
    let mut local_ok = true;
    let mut i: usize = 0;
    while i < k
        invariant
            n == s@.len(),
            0 < k < n,
            i <= k,
            local_ok == forall|j: int| 0 <= j < i ==> #[trigger] is_local_char(s@[j]),
        decreases k - i,
    {
        let c = s.get_char(i);
        if !is_local_char_exec(c) {
            local_ok = false;
        }
        i = i + 1;
    }
    let mut domain_chars_ok = true;
    let mut has_dot = false;
    let mut i: usize = k + 1;
    while i < n
        invariant
            n == s@.len(),
            0 < k < n,
            k + 1 <= i <= n,
            domain_chars_ok == forall|j: int| k + 1 <= j < i ==> #[trigger] is_domain_char(s@[j]),
            has_dot == exists|j: int| k + 1 <= j < i && s@[j] == '.',
        decreases n - i,
    {
        let c = s.get_char(i);
        if !is_domain_char_exec(c) {
            domain_chars_ok = false;
        }
        if c == '.' {
            has_dot = true;
        }
        i = i + 1;
    }
    let r = local_ok && domain_chars_ok && has_dot && k + 1 < n && s.get_char(k + 1) != '.'
        && s.get_char(n - 1) != '.';
    proof {
        let loc = s@.subrange(0, k as int);
        let dom = s@.subrange(k + 1, n as int);
        assert(loc.len() == k);
        if r {
            assert forall|j: int| 0 <= j < loc.len() implies #[trigger] is_local_char(loc[j]) by {
                assert(loc[j] == s@[j]);
            }
            assert forall|j: int| 0 <= j < dom.len() implies #[trigger] is_domain_char(dom[j]) by {
                assert(dom[j] == s@[k + 1 + j]);
            }
            let w = choose|j: int| k + 1 <= j < n && s@[j] == '.';
            assert(dom[w - k - 1] == '.');
            assert(valid_domain(dom));
            assert(valid_email(s@));
        } else {
            assert forall|m: int| 0 <= m < s@.len() && s@[m] == '@' implies !(valid_local(
                #[trigger] s@.subrange(0, m),
            ) && valid_domain(s@.subrange(m + 1, s@.len() as int))) by {
                if m > k {
                    assert(!is_local_char(s@.subrange(0, m)[k as int]));
                } else {
                    assert(m == k);
                    if !local_ok {
                        let j = choose|j: int| 0 <= j < k && !is_local_char(s@[j]);
                        assert(!is_local_char(loc[j]));
                    } else if !domain_chars_ok {
                        let j = choose|j: int| k + 1 <= j < n && !is_domain_char(s@[j]);
                        assert(!is_domain_char(dom[j - k - 1]));
                    } else if !has_dot {
                        assert forall|j: int| 0 <= j < dom.len() implies dom[j] != '.' by {
                            assert(dom[j] == s@[k + 1 + j]);
                        }
                    } else if k + 1 < n {
                        assert(dom[0] == s@[k + 1]);
                        assert(dom.last() == s@[n - 1]);
                    }
                }
            }
        }
    }
    r
}

/// Rules that a password must meet before it is hashed.
#[derive(Clone, Copy, Debug, PartialEq, Eq, Structural)]
pub struct PasswordPolicy {
    /// Fewest characters accepted.
    pub min_chars: usize,
    /// Whether an ASCII letter is required.
    pub require_letter: bool,
    /// Whether an ASCII digit is required.
    pub require_digit: bool,
}

impl PasswordPolicy {
    /// Eight characters or more, with a letter and a digit.
    pub fn standard() -> (r: PasswordPolicy)
        ensures
            r.min_chars == 8,
            r.require_letter,
            r.require_digit,
    {
        PasswordPolicy { min_chars: 8, require_letter: true, require_digit: true }
    }
}

/// A password that meets `policy`.
pub open spec fn password_ok(p: Seq<char>, policy: PasswordPolicy) -> bool {
    &&& p.len() >= policy.min_chars
    &&& policy.require_letter ==> exists|i: int| 0 <= i < p.len() && is_ascii_letter(#[trigger] p[i])
    &&& policy.require_digit ==> exists|i: int| 0 <= i < p.len() && is_ascii_digit(#[trigger] p[i])
}

/// Whether `p` is acceptable under `policy`.
pub fn check_password(p: &str, policy: PasswordPolicy) -> (r: bool)
    ensures
        r == password_ok(p@, policy),
{
    let n = p.unicode_len();
    if n < policy.min_chars {
        return false;
    }
    let mut has_letter = false;
    let mut has_digit = false;
    let mut i: usize = 0;
    while i < n
        invariant
            n == p@.len(),
            i <= n,
            n >= policy.min_chars,
            has_letter == exists|j: int| 0 <= j < i && is_ascii_letter(#[trigger] p@[j]),
            has_digit == exists|j: int| 0 <= j < i && is_ascii_digit(#[trigger] p@[j]),
        decreases n - i,
    {
        let c = p.get_char(i);
        if ('a' <= c && c <= 'z') || ('A' <= c && c <= 'Z') {
            has_letter = true;
        }
        if '0' <= c && c <= '9' {
            has_digit = true;
        }
        i = i + 1;
    }
    (!policy.require_letter || has_letter) && (!policy.require_digit || has_digit)
}

/// The stored form of an email: ASCII letters turned to lower case.
pub fn normalize_email(s: &str) -> (r: String)
    ensures
        r@ == normalized_email(s@),
{
    let n = s.unicode_len();
    let mut r = String::new();
    let mut i: usize = 0;
    while i < n
        invariant
            n == s@.len(),
            i <= n,
            r@ == normalized_email(s@.subrange(0, i as int)),
        decreases n - i,
    {
        let c = s.get_char(i);
        let lc = if 'A' <= c && c <= 'Z' {
            ((c as u8) + 32) as char
        } else {
            c
        };
        proof {
            assert(s@.subrange(0, i + 1) =~= s@.subrange(0, i as int).push(c));
        }
        push_char(&mut r, lc);
        i = i + 1;
        proof {
            assert(r@ =~= normalized_email(s@.subrange(0, i as int)));
        }
    }
    proof {
        assert(s@.subrange(0, n as int) =~= s@);
    }
    r
}

} // verus!
