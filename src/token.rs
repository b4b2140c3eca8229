use vstd::prelude::*;

verus! {

/// An access token: a secret and the instant (Unix seconds, UTC) at which it expires.
///
/// The secret is never formatted into messages, so the type has no `Debug`.
pub struct Token {
    pub secret: String,
    pub expires_on: i64,
}

/// A token is usable at `now` iff `now < expires_on - skew`.
pub open spec fn usable(t: Token, now: int, skew: int) -> bool {
    now < t.expires_on - skew
}

impl Token {
    pub fn new(secret: String, expires_on: i64) -> (r: Token)
        ensures
            r.secret == secret,
            r.expires_on == expires_on,
    {
        Token { secret, expires_on }
    }

    /// A copy of the token, equal to it.
    pub fn duplicate(&self) -> (r: Token)
        ensures
            r == *self,
    {
        Token { secret: self.secret.clone(), expires_on: self.expires_on }
    }

    /// Whether the token may still be served at `now`, given a safety skew in seconds.
    pub fn is_usable_at(&self, now: i64, skew: u32) -> (r: bool)
        ensures
            r == usable(*self, now as int, skew as int),
    {
        (now as i128) < (self.expires_on as i128) - (skew as i128)
    }

    /// Whether the token has expired at `now` (no skew).
    pub fn is_expired(&self, now: i64) -> (r: bool)
        ensures
            r == (now >= self.expires_on),
    {
        now >= self.expires_on
    }
}

} // verus!
