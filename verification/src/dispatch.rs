//! The dispatcher: decode the key, check the tenant and its channel
//! configuration, resolve and filter the message, plan the channel sends,
//! drive the enterprise-chat retry state machine, and aggregate the outcome.
//! The embedding application performs the HTTP calls and the
//! configuration-store lookups between these steps.

use vstd::prelude::*;
use crate::clients::DependencyError;
use crate::clients::WeChatAccessToken;
use crate::models::Tenant;
use crate::models::WechatWork;
use crate::policy;

verus! {

/// The caller-visible reply body.
#[derive(Debug)]
pub struct Response {
    pub success: bool,
    pub error_message: String,
}

/// The query parameters a send request carries.
pub struct Message {
    pub text: Option<String>,
    pub to_party: Option<String>,
}

/// A request refused before any channel is tried; each variant is surfaced
/// to the caller with status 400 and its description.
#[derive(Debug, Clone, Copy, PartialEq, Eq, Structural)]
pub enum UserError {
    /// The key is not a well-formed tenant key.
    BadKey,
    /// No tenant owns the decoded identifier.
    UnknownTenant,
    /// The tenant has no channel-configuration record.
    NoChannels,
    /// Neither the query nor the body yields a message text.
    NoMessage,
    /// The message holds a block-list word.
    Blocked,
}

impl UserError {
    /// The caller-visible description of the refusal.
    pub open spec fn message_spec(&self) -> Seq<char> {
        match self {
            UserError::BadKey => "Invalid key."@,
            UserError::UnknownTenant => "Unknown APP ID."@,
            UserError::NoChannels => "No WeChat/Telegram credentials are configured."@,
            UserError::NoMessage => "No message is provided."@,
            UserError::Blocked => "Message blocked."@,
        }
    }

    /// The caller-visible description, never empty.
    pub fn message(&self) -> (m: String)
        ensures
            m@ == self.message_spec(),
            m@.len() > 0,
    {
        proof {
            reveal_strlit("Invalid key.");
            reveal_strlit("Unknown APP ID.");
            reveal_strlit("No WeChat/Telegram credentials are configured.");
            reveal_strlit("No message is provided.");
            reveal_strlit("Message blocked.");
        }
        match self {
            UserError::BadKey => "Invalid key.".to_owned(),
            UserError::UnknownTenant => "Unknown APP ID.".to_owned(),
            UserError::NoChannels => "No WeChat/Telegram credentials are configured.".to_owned(),
            UserError::NoMessage => "No message is provided.".to_owned(),
            UserError::Blocked => "Message blocked.".to_owned(),
        }
    }
}

/// Decode a tenant key; any malformed key is the caller's error.
pub fn decode_key(key: &str) -> (r: Result<i64, UserError>)
    ensures
        match crate::codec::decode_spec(key@) {
            Ok(x) => r == Result::<i64, UserError>::Ok(x),
            Err(_) => r == Result::<i64, UserError>::Err(UserError::BadKey),
        },
{
    match crate::codec::decode(key) {
        Ok(x) => Ok(x),
        Err(_) => Err(UserError::BadKey),
    }
}

/// The message text a request yields: an explicit `text` query parameter
/// wins; otherwise the body bytes must be UTF-8.
pub open spec fn resolved_text(query_text: Option<String>, payload: Seq<u8>) -> Option<Seq<char>> {
    match query_text {
        Some(t) => Some(t@),
        None => if vstd::utf8::valid_utf8(payload) {
            Some(vstd::utf8::decode_utf8(payload))
        } else {
            None
        },
    }
}

/// Resolve the message text of a request.
pub fn resolve_text(query_text: Option<String>, payload: Vec<u8>) -> (r: Result<String, UserError>)
    ensures
        match resolved_text(query_text, payload@) {
            Some(t) => r is Ok && r.unwrap()@ == t,
            None => r == Result::<String, UserError>::Err(UserError::NoMessage),
        },
{
    match query_text {
        Some(t) => Ok(t),
        None => match crate::text::utf8_to_string(payload) {
            Some(s) => Ok(s),
            None => Err(UserError::NoMessage),
        },
    }
}

/// The planned enterprise-chat send of one dispatch.
pub struct WechatPlan {
    pub corp_id: String,
    pub agent_id: i64,
    pub secret: String,
    pub to_party: Option<String>,
}

/// The planned bot-messaging send of one dispatch.
pub struct TelegramPlan {
    pub bot_token: String,
    pub chat_id: String,
}

/// Everything decided before the sends start: the filtered message and one
/// optional plan per configured channel.
pub struct DispatchPlan {
    pub tenant_id: i64,
    pub text: String,
    pub wechat: Option<WechatPlan>,
    pub telegram: Option<TelegramPlan>,
}

/// Check the request against the store's records, resolve the message, run
/// the content policy, and plan the sends.
///
/// A missing tenant, a missing channel record, an unreadable message and a
/// blocked message are each refused with their own error, in that order; an
/// accepted request yields a plan holding the transformed text and exactly
/// the channels whose credentials are non-empty.
pub fn prepare(
    tenant: Option<Tenant>,
    wechat: Option<WechatWork>,
    message: Message,
    payload: Vec<u8>,
) -> (r: Result<DispatchPlan, UserError>)
    ensures
        tenant is None ==> r == Result::<DispatchPlan, UserError>::Err(UserError::UnknownTenant),
        tenant is Some && wechat is None ==> r == Result::<DispatchPlan, UserError>::Err(
            UserError::NoChannels,
        ),
        tenant is Some && wechat is Some && resolved_text(message.text, payload@) is None ==> r
            == Result::<DispatchPlan, UserError>::Err(UserError::NoMessage),
        tenant is Some && wechat is Some && resolved_text(message.text, payload@) is Some ==> {
            let raw = resolved_text(message.text, payload@).unwrap();
            let t = tenant.unwrap();
            let w = wechat.unwrap();
            &&& (policy::blocked(raw, t.block_list@) ==> r == Result::<
                DispatchPlan,
                UserError,
            >::Err(UserError::Blocked))
            &&& (!policy::blocked(raw, t.block_list@) ==> r is Ok && {
                let p = r.unwrap();
                &&& p.tenant_id == t.app_id
                &&& p.text@ == if t.captcha {
                    policy::captcha_spec(raw)
                } else {
                    raw
                }
                &&& (p.wechat is Some <==> w.corp_id@.len() > 0)
                &&& (p.wechat is Some ==> p.wechat.unwrap().corp_id == w.corp_id
                    && p.wechat.unwrap().agent_id == w.agent_id && p.wechat.unwrap().secret
                    == w.secret && p.wechat.unwrap().to_party == message.to_party)
                &&& (p.telegram is Some <==> w.bot_token@.len() > 0)
                &&& (p.telegram is Some ==> p.telegram.unwrap().bot_token == w.bot_token
                    && p.telegram.unwrap().chat_id == w.chat_id)
            })
        },
{
    let t = match tenant {
        Some(t) => t,
        None => {
            return Err(UserError::UnknownTenant);
        },
    };
    let w = match wechat {
        Some(w) => w,
        None => {
            return Err(UserError::NoChannels);
        },
    };
    let raw = match resolve_text(message.text, payload) {
        Ok(s) => s,
        Err(e) => {
            return Err(e);
        },
    };
    let filtered = match policy::apply_block_list(raw.as_str(), t.block_list.as_str()) {
        Ok(s) => s,
        Err(_) => {
            return Err(UserError::Blocked);
        },
    };
    let text = if t.captcha {
        policy::captcha(filtered.as_str())
    } else {
        filtered
    };
    let wechat_plan = if !w.corp_id.as_str().is_empty() {
        Some(
            WechatPlan {
                corp_id: w.corp_id,
                agent_id: w.agent_id,
                secret: w.secret,
                to_party: message.to_party,
            },
        )
    } else {
        None
    };
    let telegram_plan = if !w.bot_token.as_str().is_empty() {
        Some(TelegramPlan { bot_token: w.bot_token, chat_id: w.chat_id })
    } else {
        None
    };
    Ok(
        DispatchPlan {
            tenant_id: t.app_id,
            text,
            wechat: wechat_plan,
            telegram: telegram_plan,
        },
    )
}

/// Where one enterprise-chat delivery attempt stands.
pub enum WechatPhase {
    /// A fresh token must be fetched before the next send.
    NeedToken,
    /// The next send uses this token.
    HaveToken(WeChatAccessToken),
    /// The attempt ended with this outcome.
    Done(Result<(), DependencyError>),
}

/// One enterprise-chat delivery attempt: its phase and how many provider
/// calls it has made.  At most 4 sends are tried, and every send after the
/// first failure is preceded by a fresh token fetch.
pub struct WechatAttempt {
    pub sends: u8,
    pub fetches: u8,
    pub phase: WechatPhase,
}

impl WechatAttempt {
    /// The counters an attempt can reach: never more than 4 sends, and a
    /// fetch only when no usable token is at hand.
    pub open spec fn wf(self) -> bool {
        &&& self.sends <= 4
        &&& self.fetches <= 4
        &&& (self.phase is NeedToken ==> self.sends < 4 && self.fetches <= self.sends)
        &&& (self.phase is HaveToken ==> self.sends < 4 && self.fetches <= self.sends + 1)
        &&& (self.phase is Done ==> self.fetches <= self.sends + 1)
    }
}

/// How an attempt begins: a cached token still fresh at `now` is used as it
/// is; a missing or stale one forces a fetch.
pub open spec fn attempt_start_spec(cached: Option<WeChatAccessToken>, now: u64) -> WechatAttempt {
    if cached is Some && now < cached.unwrap().expires_at {
        WechatAttempt { sends: 0, fetches: 0, phase: WechatPhase::HaveToken(cached.unwrap()) }
    } else {
        WechatAttempt { sends: 0, fetches: 0, phase: WechatPhase::NeedToken }
    }
}

/// How a token fetch's outcome moves an attempt on: a token readies the next
/// send; a fetch failure ends the attempt with it.
pub open spec fn on_token_spec(
    a: WechatAttempt,
    r: Result<WeChatAccessToken, DependencyError>,
) -> WechatAttempt {
    match r {
        Ok(t) => WechatAttempt {
            sends: a.sends,
            fetches: (a.fetches + 1) as u8,
            phase: WechatPhase::HaveToken(t),
        },
        Err(e) => WechatAttempt {
            sends: a.sends,
            fetches: (a.fetches + 1) as u8,
            phase: WechatPhase::Done(Err(e)),
        },
    }
}

/// How a send's outcome moves an attempt on: success ends it; a failure is
/// retried behind a forced token refresh until 4 sends have been tried, and
/// the last failure is what the attempt reports.
pub open spec fn on_send_spec(a: WechatAttempt, r: Result<(), DependencyError>) -> WechatAttempt {
    match r {
        Ok(u) => WechatAttempt {
            sends: (a.sends + 1) as u8,
            fetches: a.fetches,
            phase: WechatPhase::Done(Ok(u)),
        },
        Err(e) => if a.sends + 1 >= 4 {
            WechatAttempt {
                sends: (a.sends + 1) as u8,
                fetches: a.fetches,
                phase: WechatPhase::Done(Err(e)),
            }
        } else {
            WechatAttempt {
                sends: (a.sends + 1) as u8,
                fetches: a.fetches,
                phase: WechatPhase::NeedToken,
            }
        },
    }
}

impl WechatAttempt {
    /// Begin an attempt from whatever the cache held at `now`.
    pub fn start(cached: Option<WeChatAccessToken>, now: u64) -> (a: WechatAttempt)
        ensures
            a == attempt_start_spec(cached, now),
            a.wf(),
    {
        match cached {
            Some(t) => {
                if now < t.expires_at {
                    WechatAttempt { sends: 0, fetches: 0, phase: WechatPhase::HaveToken(t) }
                } else {
                    WechatAttempt { sends: 0, fetches: 0, phase: WechatPhase::NeedToken }
                }
            },
            None => WechatAttempt { sends: 0, fetches: 0, phase: WechatPhase::NeedToken },
        }
    }

    /// Record the outcome of the token fetch the attempt asked for.
    pub fn on_token(&mut self, r: Result<WeChatAccessToken, DependencyError>)
        requires
            old(self).wf(),
            old(self).phase is NeedToken,
        ensures
            *final(self) == on_token_spec(*old(self), r),
            final(self).wf(),
    {
        let fetches = self.fetches + 1;
        let sends = self.sends;
        match r {
            Ok(t) => {
                *self = WechatAttempt { sends, fetches, phase: WechatPhase::HaveToken(t) };
            },
            Err(e) => {
                *self = WechatAttempt { sends, fetches, phase: WechatPhase::Done(Err(e)) };
            },
        }
    }

    /// Record the outcome of the send the attempt asked for.
    pub fn on_send(&mut self, r: Result<(), DependencyError>)
        requires
            old(self).wf(),
            old(self).phase is HaveToken,
        ensures
            *final(self) == on_send_spec(*old(self), r),
            final(self).wf(),
    {
        let sends = self.sends + 1;
        let fetches = self.fetches;
        match r {
            Ok(u) => {
                *self = WechatAttempt { sends, fetches, phase: WechatPhase::Done(Ok(u)) };
            },
            Err(e) => {
                if sends >= 4 {
                    *self = WechatAttempt { sends, fetches, phase: WechatPhase::Done(Err(e)) };
                } else {
                    *self = WechatAttempt { sends, fetches, phase: WechatPhase::NeedToken };
                }
            },
        }
    }
}

/// Combine the channels' outcomes: the request reports success exactly when
/// some attempted channel delivered, and a channel failure never becomes a
/// request-level error.
pub fn aggregate(
    wechat: Option<Result<(), DependencyError>>,
    telegram: Option<Result<(), DependencyError>>,
) -> (resp: Response)
    ensures
        resp.success == ((wechat is Some && wechat.unwrap() is Ok) || (telegram is Some
            && telegram.unwrap() is Ok)),
        resp.error_message@ == Seq::<char>::empty(),
{
    let wechat_ok = match &wechat {
        Some(r) => r.is_ok(),
        None => false,
    };
    let telegram_ok = match &telegram {
        Some(r) => r.is_ok(),
        None => false,
    };
    Response { success: wechat_ok || telegram_ok, error_message: String::new() }
}

/// The reply for a refused request: never successful, always described.
pub fn error_response(e: &UserError) -> (resp: Response)
    ensures
        !resp.success,
        resp.error_message@ == e.message_spec(),
        resp.error_message@.len() > 0,
{
    Response { success: false, error_message: e.message() }
}

/// Law: a token just put into the cache is what the cache yields for that
/// tenant, and an attempt begun at or past its expiry fetches anew instead
/// of using it, while a fresh token is used as it is.
pub proof fn lemma_cache_freshness(
    m: Map<i64, WeChatAccessToken>,
    id: i64,
    t: WeChatAccessToken,
    now: u64,
)
    ensures
        m.insert(id, t)[id] == t,
        now >= t.expires_at ==> attempt_start_spec(Some(t), now).phase is NeedToken,
        now < t.expires_at ==> attempt_start_spec(Some(t), now).phase == WechatPhase::HaveToken(t),
{
}

/// Law: when the cache holds nothing usable, every fetch yields a token and
/// every send fails, the attempt makes exactly 4 fetches and 4 sends and
/// ends with the last send's failure.
pub proof fn lemma_retry_exhaustion(
    cached: Option<WeChatAccessToken>,
    now: u64,
    t1: WeChatAccessToken,
    t2: WeChatAccessToken,
    t3: WeChatAccessToken,
    t4: WeChatAccessToken,
    e1: DependencyError,
    e2: DependencyError,
    e3: DependencyError,
    e4: DependencyError,
)
    requires
        cached is None || now >= cached.unwrap().expires_at,
    ensures
        ({
            let a = attempt_start_spec(cached, now);
            let a = on_token_spec(a, Ok(t1));
            let a = on_send_spec(a, Err(e1));
            let a = on_token_spec(a, Ok(t2));
            let a = on_send_spec(a, Err(e2));
            let a = on_token_spec(a, Ok(t3));
            let a = on_send_spec(a, Err(e3));
            let a = on_token_spec(a, Ok(t4));
            let a = on_send_spec(a, Err(e4));
            a.fetches == 4 && a.sends == 4 && a.phase == WechatPhase::Done(
                Result::<(), DependencyError>::Err(e4),
            )
        }),
{
}

} // verus!
