//! The claims that a session token carries.

use vstd::prelude::*;
use vstd::string::{StrSliceExecFns, StringExecFns};

verus! {

/// For how many seconds a token holds: two hundred years of 365 days.
pub const TOKEN_LIFETIME_SECONDS: u64 = 6_307_200_000;

/// The claims of a session token: whom it was issued to, their roles, and
/// the seconds since the epoch at which it was issued and at which it ends.
#[derive(Clone, Debug)]
pub struct Claims {
    pub sub: String,
    pub roles: Vec<String>,
    pub iat: usize,
    pub exp: usize,
}

impl Claims {
    /// The claims of a token issued to `sub` at `now`, without roles, that
    /// ends `TOKEN_LIFETIME_SECONDS` later; `None` where that moment is
    /// beyond what `usize` holds.
    pub fn issue(sub: String, now: usize) -> (claims: Option<Claims>)
        ensures
            claims.is_some() == (now + TOKEN_LIFETIME_SECONDS <= usize::MAX),
            claims.is_some() ==> {
                &&& claims.unwrap().sub == sub
                &&& claims.unwrap().roles@.len() == 0
                &&& claims.unwrap().iat == now
                &&& claims.unwrap().exp == now + TOKEN_LIFETIME_SECONDS
            },
    {
        let end: u128 = now as u128 + TOKEN_LIFETIME_SECONDS as u128;
        if end > usize::MAX as u128 {
            None
        } else {
            Some(Claims { sub, roles: Vec::new(), iat: now, exp: end as usize })
        }
    }
}

/// The token of an authorisation header: what follows `Bearer ` in a
/// header that begins so, and `None` for any other header.
pub fn bearer_token(header: &str) -> (token: Option<String>)
    ensures
        token.is_some() == "Bearer "@.is_prefix_of(header@),
        token.is_some() ==> token.unwrap()@ == header@.skip(7),
{
    proof {
        reveal_strlit("Bearer ");
    }
    let prefix = "Bearer ";
    let length = header.unicode_len();
    if length < 7 {
        return None;
    }
    let mut i: usize = 0;
    while i < 7
        invariant
            i <= 7,
            length == header@.len(),
            prefix@ == "Bearer "@,
            prefix@.len() == 7,
            7 <= header@.len(),
            forall|k: int| 0 <= k < i ==> header@[k] == prefix@[k],
        decreases 7 - i,
    {
        if header.get_char(i) != prefix.get_char(i) {
            assert(header@.subrange(0, 7)[i as int] != prefix@[i as int]);
            return None;
        }
        i += 1;
    }
    assert(prefix@ =~= header@.subrange(0, 7));
    let rest = header.substring_char(7, length);
    assert(rest@ =~= header@.skip(7));
    Some(String::from_str(rest))
}

} // verus!
