//! Reading and checking the admin credential of a request.
use vstd::prelude::*;

use crate::text::{find_from, first_match_from, lemma_first_match_bounds, split_once, split_once_of, str_eq};

verus! {

/// The header that may carry the key.
pub const AUTH_HEADER: &'static str = "x-api-key";

/// The cookie that may carry the key.
pub const AUTH_COOKIE: &'static str = "api-key";

pub const NOT_AUTHORIZED_MESSAGE: &'static str = "Not authorized";

/// Marks a request whose credential matched the configured key.
#[derive(Debug, Clone, Copy)]
pub struct AuthData;

/// What `str::to_lowercase` makes of a string.
pub uninterp spec fn lower_of(s: Seq<char>) -> Seq<char>;

/// Relies on str::to_lowercase: the lower-case mapping of each character.
#[verifier::external_body]
fn lowercase(s: &str) -> (r: String)
    ensures
        r@ == lower_of(s@),
{
    s.to_lowercase()
}

/// Relies on constant_time_eq::constant_time_eq, which is true exactly when the two
/// byte strings are equal; UTF-8 encodings are equal exactly when the strings are.
#[verifier::external_body]
fn keys_match(a: &str, b: &str) -> (r: bool)
    ensures
        r == (a@ == b@),
{
    constant_time_eq::constant_time_eq(a.as_bytes(), b.as_bytes())
}

/// The key of an `Authorization` header value of the form `Bearer <key>`
/// (scheme compared case-insensitively).
pub open spec fn bearer_of(h: Seq<char>) -> Option<Seq<char>> {
    match split_once_of(h, " "@) {
        Some(parts) => if lower_of(parts.0) == "bearer"@ {
            Some(parts.1)
        } else {
            None
        },
        None => None,
    }
}

/// The value of the key cookie in a `Cookie` header, looking at the `; `-separated
/// pairs from position `start` on; the first pair whose name is the cookie's
/// (case-insensitively) wins.
pub open spec fn cookie_from(s: Seq<char>, start: int) -> Option<Seq<char>>
    decreases s.len() - start via cookie_from_decreases
{
    if start < 0 || start > s.len() {
        None
    } else {
        let j = first_match_from(s, "; "@, start);
        let end = if j < 0 {
            s.len() as int
        } else {
            j
        };
        let hit = match split_once_of(s.subrange(start, end), "="@) {
            Some(parts) => if lower_of(parts.0) == AUTH_COOKIE@ {
                Some(parts.1)
            } else {
                None
            },
            None => None,
        };
        if hit is Some {
            hit
        } else if j < 0 {
            None
        } else {
            cookie_from(s, j + 2)
        }
    }
}

#[via_fn]
proof fn cookie_from_decreases(s: Seq<char>, start: int) {
    reveal_strlit("; ");
    lemma_first_match_bounds(s, "; "@, start);
}

/// The credential a request presents: the key header, else a bearer
/// `Authorization` header, else the key cookie.
pub open spec fn credential_of(
    api_key: Option<Seq<char>>,
    authorization: Option<Seq<char>>,
    cookie: Option<Seq<char>>,
) -> Option<Seq<char>> {
    if api_key is Some {
        api_key
    } else if authorization is Some && bearer_of(authorization->Some_0) is Some {
        bearer_of(authorization->Some_0)
    } else if cookie is Some {
        cookie_from(cookie->Some_0, 0)
    } else {
        None
    }
}

fn bearer(h: &str) -> (r: Option<String>)
    ensures
        r is Some <==> bearer_of(h@) is Some,
        r is Some ==> bearer_of(h@) == Some(r->Some_0@),
{
    match split_once(h, " ") {
        Some((t, v)) => {
            let l = lowercase(t);
            if str_eq(l.as_str(), "bearer") {
                Some(String::from_str(v))
            } else {
                None
            }
        },
        None => None,
    }
}

fn cookie_value(s: &str) -> (r: Option<String>)
    ensures
        r is Some <==> cookie_from(s@, 0) is Some,
        r is Some ==> cookie_from(s@, 0) == Some(r->Some_0@),
{
    let n = s.unicode_len();
    let mut start: usize = 0;
    loop
        invariant
            start <= n,
            n == s@.len(),
            cookie_from(s@, 0) == cookie_from(s@, start as int),
        decreases n - start,
    {
        let found = find_from(s, "; ", start);
        let end = match found {
            Some(j) => j,
            None => n,
        };
        proof {
            lemma_first_match_bounds(s@, "; "@, start as int);
        }
        let piece = s.substring_char(start, end);
        match split_once(piece, "=") {
            Some((k, v)) => {
                let l = lowercase(k);
                if str_eq(l.as_str(), AUTH_COOKIE) {
                    return Some(String::from_str(v));
                }
            },
            None => {},
        }
        match found {
            Some(j) => {
                assert("; "@.len() == 2) by {
                    reveal_strlit("; ");
                }
                start = j + 2;
            },
            None => {
                return None;
            },
        }
    }
}

/// The credential a request presents, given its key header, `Authorization`
/// header and `Cookie` header (each absent or not valid text: `None`).
pub fn credential(api_key: Option<&str>, authorization: Option<&str>, cookie: Option<&str>) -> (r:
    Option<String>)
    ensures
        ({
            let spec_api_key = match api_key {
                Some(k) => Some(k@),
                None => None,
            };
            let spec_authorization = match authorization {
                Some(a) => Some(a@),
                None => None,
            };
            let spec_cookie = match cookie {
                Some(c) => Some(c@),
                None => None,
            };
            let c = credential_of(spec_api_key, spec_authorization, spec_cookie);
            &&& r is Some <==> c is Some
            &&& r is Some ==> c == Some(r->Some_0@)
        }),
{
    if let Some(k) = api_key {
        return Some(String::from_str(k));
    }
    if let Some(a) = authorization {
        let b = bearer(a);
        if b.is_some() {
            return b;
        }
    }
    match cookie {
        Some(c) => cookie_value(c),
        None => None,
    }
}

/// The verdict on a request's credential.
#[derive(Debug, Clone, Copy, PartialEq, Eq, Structural)]
pub enum AuthDecision {
    /// The credential matched the key.
    Authorized,
    /// A credential was presented and did not match.
    Rejected,
    /// No credential was presented.
    Missing,
}

impl AuthDecision {
    /// The marker for an authorized request.
    pub fn auth_data(&self) -> (r: Option<AuthData>)
        ensures
            r is Some <==> *self == AuthDecision::Authorized,
    {
        match self {
            AuthDecision::Authorized => Some(AuthData),
            _ => None,
        }
    }

    /// The status code and message sent in place of a refused admin request.
    pub fn refusal(&self) -> (r: Option<(u16, &'static str)>)
        ensures
            *self == AuthDecision::Authorized ==> r is None,
            *self != AuthDecision::Authorized ==> r == Some((401u16, NOT_AUTHORIZED_MESSAGE)),
    {
        match self {
            AuthDecision::Authorized => None,
            _ => Some((401, NOT_AUTHORIZED_MESSAGE)),
        }
    }
}

/// The verdict on `presented` against the configured `key`.
pub open spec fn decision_of(presented: Option<Seq<char>>, key: Seq<char>) -> AuthDecision {
    match presented {
        None => AuthDecision::Missing,
        Some(c) => if c == key {
            AuthDecision::Authorized
        } else {
            AuthDecision::Rejected
        },
    }
}

/// Compares a presented credential with the configured key in constant time.
pub fn authorize(presented: Option<&str>, key: &str) -> (r: AuthDecision)
    ensures
        r == decision_of(
            match presented {
                Some(c) => Some(c@),
                None => None,
            },
            key@,
        ),
{
    match presented {
        None => AuthDecision::Missing,
        Some(c) => if keys_match(c, key) {
            AuthDecision::Authorized
        } else {
            AuthDecision::Rejected
        },
    }
}

/// The verdict on a request, from its key header, `Authorization` header and
/// `Cookie` header, against the configured `key`.
pub fn check_request(
    api_key: Option<&str>,
    authorization: Option<&str>,
    cookie: Option<&str>,
    key: &str,
) -> (r: AuthDecision)
    ensures
        r == decision_of(
            credential_of(
                match api_key {
                    Some(k) => Some(k@),
                    None => None,
                },
                match authorization {
                    Some(a) => Some(a@),
                    None => None,
                },
                match cookie {
                    Some(c) => Some(c@),
                    None => None,
                },
            ),
            key@,
        ),
{
    let c = credential(api_key, authorization, cookie);
    match c {
        Some(c) => authorize(Some(c.as_str()), key),
        None => authorize(None, key),
    }
}

} // verus!
