//! The pure halves of the two channel clients: building each outbound
//! request and judging each provider reply.  The embedding application
//! performs the HTTP calls between them.

use vstd::prelude::*;
use vstd::string::StringExecFns;

verus! {

/// A provider-reported or transport failure of a downstream channel.
#[derive(Debug, Clone)]
pub struct DependencyError {
    pub message: String,
}

/// The enterprise-chat token endpoint's reply, which doubles as the cached
/// token: `expires_at` is an absolute instant on the embedding application's
/// clock.
#[derive(Debug, Clone)]
pub struct WeChatAccessToken {
    pub error_code: u64,
    pub error_message: String,
    pub access_token: String,
    pub expires_at: u64,
}

/// A message as the enterprise-chat send endpoint takes it.
#[derive(Debug)]
pub struct WeChatMessage {
    pub to_user: Option<String>,
    pub to_party: Option<String>,
    pub agent_id: i64,
    pub message_type: String,
    pub content: String,
    pub enable_duplicate_check: bool,
    pub duplicate_check_interval: u64,
}

/// A message as the bot-messaging send endpoint takes it.
#[derive(Debug)]
pub struct TelegramMessage {
    pub chat_id: String,
    pub text: String,
}

/// The enterprise-chat token URL for a tenant's credentials.
pub fn wechat_token_url(corp_id: &str, secret: &str) -> (url: String)
    ensures
        url@ == "https://qyapi.weixin.qq.com/cgi-bin/gettoken?corpid="@ + corp_id@
            + "&corpsecret="@ + secret@,
{
    let mut url = String::new();
    url.append("https://qyapi.weixin.qq.com/cgi-bin/gettoken?corpid=");
    url.append(corp_id);
    url.append("&corpsecret=");
    url.append(secret);
    url
}

/// The enterprise-chat send URL for an access token.
pub fn wechat_send_url(token: &WeChatAccessToken) -> (url: String)
    ensures
        url@ == "https://qyapi.weixin.qq.com/cgi-bin/message/send?access_token="@
            + token.access_token@,
{
    let mut url = String::new();
    url.append("https://qyapi.weixin.qq.com/cgi-bin/message/send?access_token=");
    url.append(token.access_token.as_str());
    url
}

/// The bot-messaging send URL for a bot token.
pub fn telegram_send_url(bot_token: &str) -> (url: String)
    ensures
        url@ == "https://api.telegram.org/bot"@ + bot_token@ + "/sendMessage"@,
{
    let mut url = String::new();
    url.append("https://api.telegram.org/bot");
    url.append(bot_token);
    url.append("/sendMessage");
    url
}

/// The enterprise-chat message body: a targeted message goes to the given
/// sub-group, an untargeted one to everyone.
pub fn build_wechat_message(agent_id: i64, text: &str, to_party: Option<String>) -> (m:
    WeChatMessage)
    ensures
        m.agent_id == agent_id,
        m.content@ == text@,
        m.message_type@ == "text"@,
        !m.enable_duplicate_check,
        m.duplicate_check_interval == 0,
        to_party is Some ==> m.to_party == to_party && m.to_user is None,
        to_party is None ==> m.to_party is None && m.to_user is Some && m.to_user.unwrap()@
            == "@all"@,
{
    match to_party {
        Some(p) => WeChatMessage {
            to_user: None,
            to_party: Some(p),
            agent_id,
            message_type: "text".to_owned(),
            content: text.to_owned(),
            enable_duplicate_check: false,
            duplicate_check_interval: 0,
        },
        None => WeChatMessage {
            to_user: Some("@all".to_owned()),
            to_party: None,
            agent_id,
            message_type: "text".to_owned(),
            content: text.to_owned(),
            enable_duplicate_check: false,
            duplicate_check_interval: 0,
        },
    }
}

/// The bot-messaging message body.
pub fn build_telegram_message(chat_id: &str, text: &str) -> (m: TelegramMessage)
    ensures
        m.chat_id@ == chat_id@,
        m.text@ == text@,
{
    TelegramMessage { chat_id: chat_id.to_owned(), text: text.to_owned() }
}

/// Judge the token endpoint's reply: a non-zero code is the provider's own
/// failure, reported with its message.
pub fn check_token_response(t: WeChatAccessToken) -> (r: Result<
    WeChatAccessToken,
    DependencyError,
>)
    ensures
        r is Ok <==> t.error_code == 0,
        r is Ok ==> r.unwrap() == t,
        r is Err ==> r.unwrap_err().message == t.error_message,
{
    if t.error_code == 0 {
        Ok(t)
    } else {
        Err(DependencyError { message: t.error_message })
    }
}

/// Judge the enterprise-chat send reply: a non-zero code is a failure.
pub fn check_wechat_send_response(error_code: u64, error_message: String) -> (r: Result<
    (),
    DependencyError,
>)
    ensures
        r is Ok <==> error_code == 0,
        r is Err ==> r.unwrap_err().message == error_message,
{
    if error_code == 0 {
        Ok(())
    } else {
        Err(DependencyError { message: error_message })
    }
}

/// Judge the bot-messaging reply: `ok == false` is a failure, described by
/// the provider when it says how.
pub fn check_telegram_response(ok: bool, description: Option<String>) -> (r: Result<
    (),
    DependencyError,
>)
    ensures
        r is Ok <==> ok,
        r is Err ==> r.unwrap_err().message@ == (match description {
            Some(d) => d@,
            None => "Unknown Error"@,
        }),
{
    if ok {
        Ok(())
    } else {
        match description {
            Some(d) => Err(DependencyError { message: d }),
            None => Err(DependencyError { message: "Unknown Error".to_owned() }),
        }
    }
}

} // verus!
