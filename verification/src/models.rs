//! The records the dispatch core works over, and the configuration the
//! embedding application fills in.

use vstd::prelude::*;
use vstd::string::StringExecFns;

verus! {

/// A tenant: one account, one callback key, one channel configuration.
#[derive(Debug, Clone)]
pub struct Tenant {
    pub id: i64,
    /// The identifier the tenant's key encodes.
    pub app_id: i64,
    pub github_login: String,
    pub github_id: i64,
    /// Comma-separated words; a message holding one of them is refused.
    pub block_list: String,
    /// Whether the verification-code transform runs over messages.
    pub captcha: bool,
}

impl Tenant {
    /// A fresh tenant: empty block list, transform off, identifier unset.
    pub fn new(app_id: i64, github_login: String, github_id: i64) -> (t: Tenant)
        ensures
            t.id == 0,
            t.app_id == app_id,
            t.github_login == github_login,
            t.github_id == github_id,
            t.block_list@ == Seq::<char>::empty(),
            !t.captcha,
    {
        Tenant {
            id: 0,
            app_id,
            github_login,
            github_id,
            block_list: String::new(),
            captcha: false,
        }
    }
}

/// A tenant's channel configuration.  An empty `corp_id` disables the
/// enterprise-chat channel; an empty `bot_token` disables the bot-messaging
/// channel.
#[derive(Debug, Clone)]
pub struct WechatWork {
    pub id: i64,
    pub tenant_id: i64,
    pub corp_id: String,
    pub agent_id: i64,
    pub secret: String,
    pub bot_token: String,
    pub chat_id: String,
}

impl Default for WechatWork {
    /// A configuration with both channels disabled.
    fn default() -> (w: WechatWork)
        ensures
            w.id == 0,
            w.tenant_id == 0,
            w.agent_id == 0,
            w.corp_id@ == Seq::<char>::empty(),
            w.secret@ == Seq::<char>::empty(),
            w.bot_token@ == Seq::<char>::empty(),
            w.chat_id@ == Seq::<char>::empty(),
    {
        WechatWork {
            id: 0,
            tenant_id: 0,
            corp_id: String::new(),
            agent_id: 0,
            secret: String::new(),
            bot_token: String::new(),
            chat_id: String::new(),
        }
    }
}

/// What a tenant's owner sees: the record with its derived key and callback
/// URL.
pub struct UserTenant {
    pub tenant: Tenant,
    pub app_key: String,
    pub callback_url: String,
}

impl UserTenant {
    /// Derive the key and the callback URL under the given public domain.
    pub fn new(tenant: Tenant, domain: String) -> (u: UserTenant)
        ensures
            u.tenant == tenant,
            u.app_key@ == crate::codec::encode_spec(tenant.app_id),
            u.callback_url@ == domain@ + "/send/"@ + crate::codec::encode_spec(tenant.app_id),
    {
        let app_key = crate::codec::encode(tenant.app_id);
        let mut callback_url = domain;
        callback_url.append("/send/");
        callback_url.append(app_key.as_str());
        UserTenant { tenant, app_key, callback_url }
    }
}

/// Server configuration; the embedding application fills it from its
/// environment.
#[derive(Debug, Clone)]
pub struct PipeHubConfig {
    pub host: String,
    pub port: u16,
    pub domain: String,
    pub domain_web: String,
    /// Whether session cookies require HTTPS.
    pub https: bool,
    pub database_url: String,
    pub github: GitHubConfig,
    pub microsoft: MicrosoftConfig,
}

/// OAuth client settings for the GitHub login flow.
#[derive(Debug, Clone)]
pub struct GitHubConfig {
    pub client_id: String,
    pub client_secret: String,
    pub callback_url: String,
}

/// OAuth client settings for the Microsoft to-do flow.
#[derive(Debug, Clone)]
pub struct MicrosoftConfig {
    pub client_id: String,
    pub client_secret: String,
    pub callback_url: String,
}

/// The authenticated GitHub account behind a login.
#[derive(Debug)]
pub struct GithubUser {
    pub login: String,
    pub id: i64,
}

/// A to-do task as the Microsoft graph endpoint takes it.
#[derive(Debug)]
pub struct MicrosoftTodoTask {
    pub title: String,
    pub body: MicrosoftTodoTaskBody,
}

/// The body of a to-do task.
#[derive(Debug)]
pub struct MicrosoftTodoTaskBody {
    pub content: String,
}

/// The query parameters of an OAuth callback.
pub struct Callback {
    pub code: String,
    pub state: String,
}

/// The query parameter of the direct login endpoint.
pub struct LoginCallback {
    pub access_token: String,
}

} // verus!
