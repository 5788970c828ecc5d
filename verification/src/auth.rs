//! Login helpers: light-weight email and password checks, and the
//! signed-token payload with its validity rule.
//!
//! Encryption, encoding and the system clock live outside the crate;
//! the caller hands the current time in as plain nanoseconds.

use vstd::prelude::*;
use vstd::string::StringSliceAdditionalSpecFns;

use crate::error::LoginErr;

verus! {

/// How a well-shaped address splits around the sign at index `i`:
/// that sign is the only one of its kind, neither part around it is
/// empty, neither part starts with a dot, and the part after it
/// contains a dot.
pub open spec fn is_email_split(s: Seq<char>, i: int) -> bool {
    &&& 0 < i < s.len() - 1
    &&& s[i] == '@'
    &&& forall|j: int| 0 <= j < s.len() && j != i ==> s[j] != '@'
    &&& s[0] != '.'
    &&& s[i + 1] != '.'
    &&& exists|k: int| i < k < s.len() && s[k] == '.'
}

/// Whether the address has the basic shape the site accepts.
pub open spec fn spec_email_ok(s: Seq<char>) -> bool {
    exists|i: int| is_email_split(s, i)
}

/// Decides whether an address has the basic shape the site accepts:
/// exactly one separator with a non-empty name on each side, a dotted
/// domain, and no leading dot on either side.
pub fn check_email(email: &str) -> (r: bool)
    ensures
        r == spec_email_ok(email@),
{
    let n = email.unicode_len();
    let mut at_pos: usize = 0;
    let mut second_at: usize = 0;
    let mut at_count: usize = 0;
    let mut i: usize = 0;
    while i < n
        invariant
            i <= n,
            n == email@.len(),
            at_count <= 2,
            at_count == 0 ==> forall|j: int| 0 <= j < i ==> email@[j] != '@',
            at_count >= 1 ==> at_pos < i && email@[at_pos as int] == '@',
            at_count == 1 ==> forall|j: int| 0 <= j < i && j != at_pos ==> email@[j] != '@',
            at_count == 2 ==> at_pos < second_at < i && email@[second_at as int] == '@',
        decreases n - i,
    {
        if email.get_char(i) == '@' {
            if at_count == 0 {
                at_pos = i;
                at_count = 1;
            } else if at_count == 1 {
                second_at = i;
                at_count = 2;
            }
        }
        i = i + 1;
    }
    if at_count != 1 {
        proof {
            assert forall|c: int| !is_email_split(email@, c) by {
                if is_email_split(email@, c) {
                    if at_count == 0 {
                        assert(email@[c] != '@');
                    } else {
                        assert(email@[at_pos as int] == '@');
                        assert(email@[second_at as int] == '@');
                    }
                }
            }
        }
        return false;
    }
    if at_pos == 0 || at_pos + 1 >= n {
        proof {
            assert forall|c: int| !is_email_split(email@, c) by {
                if is_email_split(email@, c) {
                    assert(email@[at_pos as int] == '@');
                    assert(c == at_pos);
                }
            }
        }
        return false;
    }
    if email.get_char(0) == '.' || email.get_char(at_pos + 1) == '.' {
        proof {
            assert forall|c: int| !is_email_split(email@, c) by {
                if is_email_split(email@, c) {
                    assert(email@[at_pos as int] == '@');
                    assert(c == at_pos);
                }
            }
        }
        return false;
    }
    let mut k: usize = at_pos + 1;
    while k < n
        invariant
            at_pos + 1 <= k <= n,
            n == email@.len(),
            0 < at_pos,
            at_pos + 1 < n,
            email@[at_pos as int] == '@',
            forall|j: int| 0 <= j < n && j != at_pos ==> email@[j] != '@',
            email@[0] != '.',
            email@[at_pos as int + 1] != '.',
            forall|m: int| at_pos < m < k ==> email@[m] != '.',
        decreases n - k,
    {
        if email.get_char(k) == '.' {
            proof {
                assert(is_email_split(email@, at_pos as int));
            }
            return true;
        }
        k = k + 1;
    }
    proof {
        assert forall|c: int| !is_email_split(email@, c) by {
            if is_email_split(email@, c) {
                assert(email@[at_pos as int] == '@');
                assert(c == at_pos);
                let d = choose|d: int| c < d < email@.len() && email@[d] == '.';
                assert(email@[d] != '.');
            }
        }
    }
    false
}

/// How long a freshly issued token stays valid, in nanoseconds: one
/// day.
pub const TOKEN_VALIDITY_NANOS: u128 = 86_400_000_000_000;

/// The exact message every genuine token carries.
pub open spec fn spec_token_message() -> Seq<char> {
    "This is a signed token for the whistbook website"@
}

/// The message a freshly issued token is stamped with; a token without
/// it is not ours.
pub fn token_message() -> (r: String)
    ensures
        r@ == spec_token_message(),
{
    "This is a signed token for the whistbook website".to_owned()
}

/// The payload of a session token.  The caller seals and opens the
/// payload cryptographically; this type only fixes what is inside and
/// when it has expired.
pub struct Token {
    pub message: String,
    pub user: String,
    pub expires_at: u128,
}

impl Token {
    /// Stamps a token for `user`, expiring one day after `now_nanos`,
    /// the current time in nanoseconds since the epoch.
    pub fn new(message: String, user: String, now_nanos: u128) -> (r: Token)
        requires
            now_nanos <= u128::MAX - TOKEN_VALIDITY_NANOS,
        ensures
            r.message == message,
            r.user == user,
            r.expires_at == now_nanos + TOKEN_VALIDITY_NANOS,
    {
        let expires_at = now_nanos + TOKEN_VALIDITY_NANOS;
        Token { message, user, expires_at }
    }

    /// Whether the token is genuine and not yet expired at `now_nanos`.
    pub fn is_valid(&self, now_nanos: u128) -> (r: bool)
        ensures
            r == (self.message@ == spec_token_message() && self.expires_at > now_nanos),
    {
        let expected = token_message();
        if !(self.message == expected) {
            return false;
        }
        self.expires_at > now_nanos
    }
}

/// Rejects a password that does not meet the site's rules.
///
/// The only rule is a minimum length of eight bytes.
pub fn check_pw(password: &str) -> (r: Result<(), LoginErr>)
    ensures
        r == Ok::<(), LoginErr>(()) <==> password.spec_bytes().len() >= 8,
        r is Err ==> r == Err::<(), LoginErr>(LoginErr::TooShort),
{
    let bytes = password.as_bytes();
    if bytes.len() < 8 {
        return Err(LoginErr::TooShort);
    }
    Ok(())
}

} // verus!
