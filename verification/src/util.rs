//! Token generation and the small string utilities around session cookies.

use rand::distr::SampleString;
use vstd::prelude::*;

use crate::error::AppError;

verus! {

/// Number of alphanumeric chars in session tokens.
pub const AUTH_TOKEN_LENGTH: usize = 128;

/// Number of alphanumeric chars in share tokens.
pub const SHARE_TOKEN_LENGTH: usize = 32;

/// Number of alphanumeric chars in note tokens.
pub const NOTE_TOKEN_LENGTH: usize = 32;

pub open spec fn is_alphanumeric_char(c: char) -> bool {
    ('a' <= c && c <= 'z') || ('A' <= c && c <= 'Z') || ('0' <= c && c <= '9')
}

/// Relies on rand's `Alphanumeric` distribution via `sample_string`, seeded
/// from the thread's cryptographically secure generator: the result holds
/// exactly `len` characters, each one of a-z, A-Z, 0-9 (hence ASCII).
#[verifier::external_body]
fn sample_alphanumeric(len: usize) -> (r: String)
    ensures
        r@.len() == len as int,
        forall|i: int| 0 <= i < r@.len() ==> is_alphanumeric_char(#[trigger] r@[i]),
        r.is_ascii(),
{
    rand::distr::Alphanumeric.sample_string(&mut rand::rng(), len)
}

/// A fresh high-entropy session token; unguessable in practice.
pub fn get_auth_token() -> (t: String)
    ensures
        t@.len() == AUTH_TOKEN_LENGTH as int,
        forall|i: int| 0 <= i < t@.len() ==> is_alphanumeric_char(#[trigger] t@[i]),
        t.is_ascii(),
{
    sample_alphanumeric(AUTH_TOKEN_LENGTH)
}

/// A fresh share token.
pub fn get_share_token() -> (t: String)
    ensures
        t@.len() == SHARE_TOKEN_LENGTH as int,
        forall|i: int| 0 <= i < t@.len() ==> is_alphanumeric_char(#[trigger] t@[i]),
        t.is_ascii(),
{
    sample_alphanumeric(SHARE_TOKEN_LENGTH)
}

/// A fresh note token (the note's public id).
pub fn get_note_token() -> (t: String)
    ensures
        t@.len() == NOTE_TOKEN_LENGTH as int,
        forall|i: int| 0 <= i < t@.len() ==> is_alphanumeric_char(#[trigger] t@[i]),
        t.is_ascii(),
{
    sample_alphanumeric(NOTE_TOKEN_LENGTH)
}

/// Abbreviate a session token for a log line: its first and last six
/// characters around a gap marker, never the full secret.
pub fn truncate_auth_token(token: &String) -> (r: String)
    requires
        token.is_ascii(),
        token@.len() >= 12,
    ensures
        r@ == token@.subrange(0, 6) + ".."@ + token@.subrange(
            token@.len() - 6,
            token@.len() as int,
        ),
{
    let s = token.as_str();
    let n = s.unicode_len();
    let head = s.substring_ascii(0, 6);
    let tail = s.substring_ascii(n - 6, n);
    let mut out = head.to_owned();
    out.append("..");
    out.append(tail);
    out
}

/// The first position at or after `from` where `c` occurs in `s`, or the
/// length of `s` if it does not.
pub open spec fn find_char_from(s: Seq<char>, c: char, from: int) -> int
    recommends
        0 <= from <= s.len(),
    decreases s.len() - from,
{
    if from < 0 || from >= s.len() {
        s.len() as int
    } else if s[from] == c {
        from
    } else {
        find_char_from(s, c, from + 1)
    }
}

/// Find `'='` in `s` from position `from` on.
fn find_eq(s: &str, from: usize) -> (r: usize)
    requires
        from <= s@.len(),
    ensures
        r == find_char_from(s@, '=', from as int),
        from <= r <= s@.len(),
        r < s@.len() ==> s@[r as int] == '=',
{
    let n = s.unicode_len();
    let mut i: usize = from;
    while i < n
        invariant
            n == s@.len(),
            from <= i <= n,
            find_char_from(s@, '=', from as int) == find_char_from(s@, '=', i as int),
        decreases n - i,
    {
        if s.get_char(i) == '=' {
            return i;
        }
        i = i + 1;
    }
    n
}

/// Extract the token from a cookie header value: the text between the first
/// `=` and the next one (or the end). A value with no `=` carries no
/// session, which is an authorization failure.
pub fn get_token_from_cookie(cookie: &String) -> (r: Result<String, AppError>)
    ensures
        ({
            let eq1 = find_char_from(cookie@, '=', 0);
            match r {
                Ok(t) => eq1 < cookie@.len() && t@ == cookie@.subrange(
                    eq1 + 1,
                    find_char_from(cookie@, '=', eq1 + 1),
                ),
                Err(e) => e == AppError::Unauthorized && eq1 == cookie@.len(),
            }
        }),
{
    let s = cookie.as_str();
    let n = s.unicode_len();
    let eq1 = find_eq(s, 0);
    if eq1 == n {
        return Err(AppError::Unauthorized);
    }
    let eq2 = find_eq(s, eq1 + 1);
    let token = s.substring_char(eq1 + 1, eq2);
    Ok(token.to_owned())
}

} // verus!
