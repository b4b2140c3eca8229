//! The device-code flow's own state: refresh tokens kept per scope list, and
//! the expiry of the tokens it obtains.
use crate::keyed::{scopes_view, KeyedTable};
use vstd::prelude::*;

verus! {

/// The expiry, in Unix seconds, of a token obtained at `now` and valid for
/// `seconds`; none when it cannot be represented.
pub fn convert_expires_in(now: i64, seconds: u64) -> (r: Option<i64>)
    ensures
        r == if now + seconds <= i64::MAX {
            Some((now + seconds) as i64)
        } else {
            None
        },
{
    let sum: i128 = now as i128 + seconds as i128;
    if sum <= i64::MAX as i128 {
        Some(sum as i64)
    } else {
        None
    }
}

/// Authentication through the device-code flow: its identifiers and the
/// refresh tokens obtained so far, keyed by scope list.
pub struct DeviceCodeCredential {
    tenant_id: String,
    client_id: String,
    refresh_tokens: KeyedTable<Option<azure_core::credentials::Secret>>,
}

impl DeviceCodeCredential {
    pub closed spec fn tenant_id_spec(&self) -> Seq<char> {
        self.tenant_id@
    }

    pub closed spec fn client_id_spec(&self) -> Seq<char> {
        self.client_id@
    }

    /// The refresh token kept for `key`.
    pub closed spec fn refresh_token_for(&self, key: Seq<Seq<char>>) -> Option<
        azure_core::credentials::Secret,
    > {
        match self.refresh_tokens.get_spec(key) {
            Some(Some(s)) => Some(s),
            _ => None,
        }
    }

    /// A credential for `tenant_id` and `client_id` with no refresh token.
    pub fn new(tenant_id: String, client_id: String) -> (r: Self)
        ensures
            r.tenant_id_spec() == tenant_id@,
            r.client_id_spec() == client_id@,
            forall|k: Seq<Seq<char>>| (#[trigger] r.refresh_token_for(k)) is None,
    {
        DeviceCodeCredential { tenant_id, client_id, refresh_tokens: KeyedTable::new() }
    }

    pub fn tenant_id(&self) -> (r: &str)
        ensures
            r@ == self.tenant_id_spec(),
    {
        self.tenant_id.as_str()
    }

    pub fn client_id(&self) -> (r: &str)
        ensures
            r@ == self.client_id_spec(),
    {
        self.client_id.as_str()
    }

    /// Removes and returns the refresh token kept for `scopes`: when there is
    /// one, the request exchanges it; otherwise it runs the device-code flow.
    pub fn take_refresh_token(&mut self, scopes: &Vec<String>) -> (r: Option<
        azure_core::credentials::Secret,
    >)
        ensures
            r == old(self).refresh_token_for(scopes_view(scopes@)),
            final(self).tenant_id_spec() == old(self).tenant_id_spec(),
            final(self).client_id_spec() == old(self).client_id_spec(),
            forall|k: Seq<Seq<char>>|
                #[trigger] final(self).refresh_token_for(k) == if k == scopes_view(scopes@) {
                    None
                } else {
                    old(self).refresh_token_for(k)
                },
    {
        let prev = self.refresh_tokens.replace(scopes, None);
        match prev {
            Some(Some(s)) => Some(s),
            _ => None,
        }
    }

    /// Keeps `token` as the refresh token for `scopes`, replacing any other.
    pub fn keep_refresh_token(&mut self, scopes: &Vec<String>, token: azure_core::credentials::Secret)
        ensures
            final(self).tenant_id_spec() == old(self).tenant_id_spec(),
            final(self).client_id_spec() == old(self).client_id_spec(),
            forall|k: Seq<Seq<char>>|
                #[trigger] final(self).refresh_token_for(k) == if k == scopes_view(scopes@) {
                    Some(token)
                } else {
                    old(self).refresh_token_for(k)
                },
    {
        self.refresh_tokens.set(scopes, Some(token));
    }
}

} // verus!
