//! The per-tenant access token cache: a concurrent map read during dispatch
//! and refreshed when a token is absent, stale or rejected.

use vstd::prelude::*;
use crate::clients::WeChatAccessToken;

verus! {

#[verifier::external_type_specification]
#[verifier::external_body]
#[verifier::reject_recursive_types(K)]
#[verifier::reject_recursive_types(V)]
#[verifier::reject_recursive_types(S)]
pub struct ExDashMap<K, V, S>(dashmap::DashMap<K, V, S>);

/// What the concurrent map holds: tenant id to cached token.
pub uninterp spec fn dash_contents(m: &dashmap::DashMap<i64, WeChatAccessToken>) -> Map<
    i64,
    WeChatAccessToken,
>;

/// The access token cache, keyed by tenant id.
pub struct AccessTokenCache {
    pub inner: dashmap::DashMap<i64, WeChatAccessToken>,
}

impl View for AccessTokenCache {
    type V = Map<i64, WeChatAccessToken>;

    open spec fn view(&self) -> Map<i64, WeChatAccessToken> {
        dash_contents(&self.inner)
    }
}

impl AccessTokenCache {
    /// Relies on `dashmap::DashMap::new`: a fresh map holds nothing.
    #[verifier::external_body]
    pub fn new() -> (c: AccessTokenCache)
        ensures
            forall|k: i64| !dash_contents(&c.inner).contains_key(k),
    {
        AccessTokenCache { inner: dashmap::DashMap::new() }
    }

    /// Relies on `dashmap::DashMap::get`: yields a copy of the value under
    /// the key, if there is one.
    #[verifier::external_body]
    pub fn get(&self, tenant_id: i64) -> (r: Option<WeChatAccessToken>)
        ensures
            r is Some <==> dash_contents(&self.inner).contains_key(tenant_id),
            r is Some ==> r.unwrap() == dash_contents(&self.inner)[tenant_id],
    {
        self.inner.get(&tenant_id).map(|entry| entry.value().clone())
    }

    /// Relies on `dashmap::DashMap::insert`: replaces whatever the key held.
    #[verifier::external_body]
    pub fn insert(&mut self, tenant_id: i64, token: WeChatAccessToken)
        ensures
            dash_contents(&final(self).inner) == dash_contents(&old(self).inner).insert(
                tenant_id,
                token,
            ),
    {
        self.inner.insert(tenant_id, token);
    }
}

} // verus!
