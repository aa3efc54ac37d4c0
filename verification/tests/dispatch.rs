use pipehub::cache::AccessTokenCache;
use pipehub::clients::build_telegram_message;
use pipehub::clients::build_wechat_message;
use pipehub::clients::check_telegram_response;
use pipehub::clients::check_token_response;
use pipehub::clients::check_wechat_send_response;
use pipehub::clients::telegram_send_url;
use pipehub::clients::wechat_send_url;
use pipehub::clients::wechat_token_url;
use pipehub::clients::DependencyError;
use pipehub::clients::WeChatAccessToken;
use pipehub::codec::encode;
use pipehub::dispatch::aggregate;
use pipehub::dispatch::decode_key;
use pipehub::dispatch::error_response;
use pipehub::dispatch::prepare;
use pipehub::dispatch::DispatchPlan;
use pipehub::dispatch::Message;
use pipehub::dispatch::Response;
use pipehub::dispatch::UserError;
use pipehub::dispatch::WechatAttempt;
use pipehub::dispatch::WechatPhase;
use pipehub::models::Tenant;
use pipehub::models::UserTenant;
use pipehub::models::WechatWork;

fn message(text: Option<&str>, to_party: Option<&str>) -> Message {
    Message {
        text: text.map(|t| t.to_string()),
        to_party: to_party.map(|p| p.to_string()),
    }
}

fn token(name: &str, expires_at: u64) -> WeChatAccessToken {
    WeChatAccessToken {
        error_code: 0,
        error_message: String::new(),
        access_token: name.to_string(),
        expires_at,
    }
}

fn dependency_error(msg: &str) -> DependencyError {
    DependencyError { message: msg.to_string() }
}

struct FakeProvider {
    fetch_results: Vec<Result<WeChatAccessToken, DependencyError>>,
    send_results: Vec<Result<(), DependencyError>>,
    fetch_calls: usize,
    send_calls: usize,
    telegram_calls: usize,
    telegram_result: Result<(), DependencyError>,
}

impl FakeProvider {
    fn new() -> FakeProvider {
        FakeProvider {
            fetch_results: Vec::new(),
            send_results: Vec::new(),
            fetch_calls: 0,
            send_calls: 0,
            telegram_calls: 0,
            telegram_result: Ok(()),
        }
    }
}

/// The enterprise-chat attempt loop, as the embedding application runs it,
/// against a scripted provider.
fn drive_wechat(
    cache: &mut AccessTokenCache,
    tenant_id: i64,
    now: u64,
    provider: &mut FakeProvider,
) -> Result<(), DependencyError> {
    let mut attempt = WechatAttempt::start(cache.get(tenant_id), now);
    loop {
        match &attempt.phase {
            WechatPhase::NeedToken => {
                provider.fetch_calls += 1;
                let r = provider.fetch_results.remove(0);
                if let Ok(t) = &r {
                    cache.insert(tenant_id, t.clone());
                }
                attempt.on_token(r);
            }
            WechatPhase::HaveToken(_) => {
                provider.send_calls += 1;
                let r = provider.send_results.remove(0);
                attempt.on_send(r);
            }
            WechatPhase::Done(r) => return r.clone(),
        }
    }
}

/// A whole dispatch, as the embedding application runs it, against scripted
/// store records and a scripted provider.
fn drive_dispatch(
    tenant: Option<Tenant>,
    wechat: Option<WechatWork>,
    message: Message,
    payload: Vec<u8>,
    cache: &mut AccessTokenCache,
    now: u64,
    provider: &mut FakeProvider,
) -> Response {
    let plan: DispatchPlan = match prepare(tenant, wechat, message, payload) {
        Ok(p) => p,
        Err(e) => return error_response(&e),
    };
    let wechat_result = plan
        .wechat
        .as_ref()
        .map(|_| drive_wechat(cache, plan.tenant_id, now, provider));
    let telegram_result = plan.telegram.as_ref().map(|_| {
        provider.telegram_calls += 1;
        provider.telegram_result.clone()
    });
    aggregate(wechat_result, telegram_result)
}

fn tenant(app_id: i64, block_list: &str, captcha: bool) -> Tenant {
    Tenant {
        id: 1,
        app_id,
        github_login: "octocat".to_string(),
        github_id: 99,
        block_list: block_list.to_string(),
        captcha,
    }
}

fn channels(corp_id: &str, bot_token: &str) -> WechatWork {
    WechatWork {
        id: 1,
        tenant_id: 1,
        corp_id: corp_id.to_string(),
        agent_id: 1000002,
        secret: "s3cr3t".to_string(),
        bot_token: bot_token.to_string(),
        chat_id: "chat-1".to_string(),
    }
}

#[test]
fn token_cache_put_get_and_staleness() {
    let mut cache = AccessTokenCache::new();
    assert!(cache.get(1).is_none());
    cache.insert(1, token("tok-a", 1_000));
    let got = cache.get(1).unwrap();
    assert_eq!(got.access_token, "tok-a");
    assert_eq!(got.expires_at, 1_000);
    // a token still fresh is used as it is
    let attempt = WechatAttempt::start(cache.get(1), 999);
    assert!(matches!(attempt.phase, WechatPhase::HaveToken(_)));
    // at its expiry instant the entry is stale and a refetch is forced
    let attempt = WechatAttempt::start(cache.get(1), 1_000);
    assert!(matches!(attempt.phase, WechatPhase::NeedToken));
    // an insert overwrites
    cache.insert(1, token("tok-b", 2_000));
    assert_eq!(cache.get(1).unwrap().access_token, "tok-b");
}

#[test]
fn stale_token_forces_refetch_before_send() {
    let mut cache = AccessTokenCache::new();
    cache.insert(7, token("old", 10));
    let mut provider = FakeProvider::new();
    provider.fetch_results = vec![Ok(token("new", 2_000))];
    provider.send_results = vec![Ok(())];
    let r = drive_wechat(&mut cache, 7, 50, &mut provider);
    assert!(r.is_ok());
    assert_eq!(provider.fetch_calls, 1);
    assert_eq!(provider.send_calls, 1);
    assert_eq!(cache.get(7).unwrap().access_token, "new");
}

#[test]
fn fresh_cached_token_skips_the_first_fetch() {
    let mut cache = AccessTokenCache::new();
    cache.insert(7, token("fresh", 1_000));
    let mut provider = FakeProvider::new();
    provider.send_results = vec![Ok(())];
    let r = drive_wechat(&mut cache, 7, 100, &mut provider);
    assert!(r.is_ok());
    assert_eq!(provider.fetch_calls, 0);
    assert_eq!(provider.send_calls, 1);
}

#[test]
fn four_send_failures_exhaust_the_attempt() {
    let mut cache = AccessTokenCache::new();
    let mut provider = FakeProvider::new();
    provider.fetch_results = vec![
        Ok(token("t1", 9_999)),
        Ok(token("t2", 9_999)),
        Ok(token("t3", 9_999)),
        Ok(token("t4", 9_999)),
    ];
    provider.send_results = vec![
        Err(dependency_error("e1")),
        Err(dependency_error("e2")),
        Err(dependency_error("e3")),
        Err(dependency_error("e4")),
    ];
    let r = drive_wechat(&mut cache, 3, 0, &mut provider);
    assert_eq!(provider.fetch_calls, 4);
    assert_eq!(provider.send_calls, 4);
    assert_eq!(r.unwrap_err().message, "e4");
    // a concurrent bot-messaging success still makes the whole dispatch succeed
    let resp = aggregate(
        Some(Err(dependency_error("e4"))),
        Some(Ok(())),
    );
    assert!(resp.success);
    assert_eq!(resp.error_message, "");
}

#[test]
fn failed_send_recovers_after_forced_refresh() {
    let mut cache = AccessTokenCache::new();
    let mut provider = FakeProvider::new();
    provider.fetch_results = vec![Ok(token("t1", 9_999)), Ok(token("t2", 9_999))];
    provider.send_results = vec![Err(dependency_error("rejected")), Ok(())];
    let r = drive_wechat(&mut cache, 3, 0, &mut provider);
    assert!(r.is_ok());
    assert_eq!(provider.fetch_calls, 2);
    assert_eq!(provider.send_calls, 2);
}

#[test]
fn fetch_failure_ends_the_attempt() {
    let mut cache = AccessTokenCache::new();
    let mut provider = FakeProvider::new();
    provider.fetch_results = vec![Err(dependency_error("token endpoint down"))];
    let r = drive_wechat(&mut cache, 3, 0, &mut provider);
    assert_eq!(r.unwrap_err().message, "token endpoint down");
    assert_eq!(provider.fetch_calls, 1);
    assert_eq!(provider.send_calls, 0);
}

#[test]
fn telegram_only_tenant_sends_exactly_once() {
    let key = encode(42);
    let id = decode_key(&key).unwrap();
    assert_eq!(id, 42);
    let mut cache = AccessTokenCache::new();
    let mut provider = FakeProvider::new();
    let resp = drive_dispatch(
        Some(tenant(42, "", false)),
        Some(channels("", "bt")),
        message(Some("hi"), None),
        Vec::new(),
        &mut cache,
        0,
        &mut provider,
    );
    assert!(resp.success);
    assert_eq!(resp.error_message, "");
    assert_eq!(provider.telegram_calls, 1);
    assert_eq!(provider.fetch_calls, 0);
    assert_eq!(provider.send_calls, 0);
}

#[test]
fn unknown_key_refused_without_provider_calls() {
    let key = encode(4242);
    assert_eq!(decode_key(&key), Ok(4242));
    let mut cache = AccessTokenCache::new();
    let mut provider = FakeProvider::new();
    // the key decodes, but no tenant owns the identifier
    let resp = drive_dispatch(
        None,
        Some(channels("ci", "bt")),
        message(Some("hi"), None),
        Vec::new(),
        &mut cache,
        0,
        &mut provider,
    );
    assert!(!resp.success);
    assert!(!resp.error_message.is_empty());
    assert_eq!(provider.fetch_calls, 0);
    assert_eq!(provider.send_calls, 0);
    assert_eq!(provider.telegram_calls, 0);
}

#[test]
fn malformed_key_is_the_callers_error() {
    assert_eq!(decode_key("not-a-key!"), Err(UserError::BadKey));
    assert_eq!(decode_key(""), Err(UserError::BadKey));
    let resp = error_response(&UserError::BadKey);
    assert!(!resp.success);
    assert!(!resp.error_message.is_empty());
}

#[test]
fn missing_channel_record_is_refused() {
    let r = prepare(
        Some(tenant(1, "", false)),
        None,
        message(Some("hi"), None),
        Vec::new(),
    );
    assert!(matches!(r, Err(UserError::NoChannels)));
}

#[test]
fn body_bytes_carry_the_message() {
    // the body reaches the block-list filter once decoded as UTF-8
    let r = prepare(
        Some(tenant(1, "world", false)),
        Some(channels("ci", "")),
        message(None, None),
        b"hello world".to_vec(),
    );
    assert!(matches!(r, Err(UserError::Blocked)));
}

#[test]
fn invalid_body_bytes_are_refused() {
    let r = prepare(
        Some(tenant(1, "", false)),
        Some(channels("ci", "")),
        message(None, None),
        vec![0xff, 0xfe, 0x41],
    );
    assert!(matches!(r, Err(UserError::NoMessage)));
}

#[test]
fn query_text_wins_over_body() {
    let plan = prepare(
        Some(tenant(1, "world", false)),
        Some(channels("ci", "")),
        message(Some("safe"), None),
        b"hello world".to_vec(),
    )
    .unwrap();
    assert_eq!(plan.text, "safe");
}

#[test]
fn captcha_runs_only_when_enabled() {
    let input = "【Acme】your code is AB12CD";
    let plan = prepare(
        Some(tenant(1, "", true)),
        Some(channels("ci", "")),
        message(Some(input), None),
        Vec::new(),
    )
    .unwrap();
    assert!(plan.text.starts_with("AB12CD - Acme"));
    assert!(plan.text.contains(input));
    let plan = prepare(
        Some(tenant(1, "", false)),
        Some(channels("ci", "")),
        message(Some(input), None),
        Vec::new(),
    )
    .unwrap();
    assert_eq!(plan.text, input);
}

#[test]
fn zero_configured_channels_report_soft_failure() {
    let mut cache = AccessTokenCache::new();
    let mut provider = FakeProvider::new();
    let resp = drive_dispatch(
        Some(tenant(1, "", false)),
        Some(channels("", "")),
        message(Some("hi"), None),
        Vec::new(),
        &mut cache,
        0,
        &mut provider,
    );
    assert!(!resp.success);
    assert_eq!(resp.error_message, "");
    assert_eq!(provider.fetch_calls + provider.send_calls + provider.telegram_calls, 0);
}

#[test]
fn wechat_message_addresses_everyone_or_a_party() {
    let m = build_wechat_message(1000002, "msg", None);
    assert_eq!(m.to_user.as_deref(), Some("@all"));
    assert!(m.to_party.is_none());
    assert_eq!(m.agent_id, 1000002);
    assert_eq!(m.content, "msg");
    assert_eq!(m.message_type, "text");
    assert!(!m.enable_duplicate_check);
    assert_eq!(m.duplicate_check_interval, 0);
    let m = build_wechat_message(1000002, "msg", Some("2".to_string()));
    assert!(m.to_user.is_none());
    assert_eq!(m.to_party.as_deref(), Some("2"));
}

#[test]
fn telegram_message_carries_chat_and_text() {
    let m = build_telegram_message("chat-1", "hi");
    assert_eq!(m.chat_id, "chat-1");
    assert_eq!(m.text, "hi");
}

#[test]
fn provider_urls_are_assembled() {
    assert_eq!(
        wechat_token_url("ci", "sec"),
        "https://qyapi.weixin.qq.com/cgi-bin/gettoken?corpid=ci&corpsecret=sec"
    );
    assert_eq!(
        wechat_send_url(&token("T", 0)),
        "https://qyapi.weixin.qq.com/cgi-bin/message/send?access_token=T"
    );
    assert_eq!(telegram_send_url("bt"), "https://api.telegram.org/botbt/sendMessage");
}

#[test]
fn provider_replies_are_judged() {
    assert!(check_token_response(token("t", 0)).is_ok());
    let mut bad = token("", 0);
    bad.error_code = 40001;
    bad.error_message = "invalid secret".to_string();
    assert_eq!(check_token_response(bad).unwrap_err().message, "invalid secret");
    assert!(check_wechat_send_response(0, String::new()).is_ok());
    assert_eq!(
        check_wechat_send_response(81013, "no user".to_string()).unwrap_err().message,
        "no user"
    );
    assert!(check_telegram_response(true, None).is_ok());
    assert_eq!(
        check_telegram_response(false, Some("chat not found".to_string())).unwrap_err().message,
        "chat not found"
    );
    assert_eq!(
        check_telegram_response(false, None).unwrap_err().message,
        "Unknown Error"
    );
}

#[test]
fn tenant_new_starts_clean() {
    let t = Tenant::new(9, "login".to_string(), 3);
    assert_eq!(t.id, 0);
    assert_eq!(t.app_id, 9);
    assert_eq!(t.github_login, "login");
    assert_eq!(t.github_id, 3);
    assert_eq!(t.block_list, "");
    assert!(!t.captcha);
}

#[test]
fn default_channel_config_disables_both_channels() {
    let w = WechatWork::default();
    assert_eq!(w.corp_id, "");
    assert_eq!(w.bot_token, "");
    let plan = prepare(
        Some(tenant(1, "", false)),
        Some(w),
        message(Some("hi"), None),
        Vec::new(),
    )
    .unwrap();
    assert!(plan.wechat.is_none());
    assert!(plan.telegram.is_none());
}

#[test]
fn user_tenant_derives_key_and_callback_url() {
    let t = tenant(4242, "", false);
    let u = UserTenant::new(t, "https://pipehub.example".to_string());
    assert_eq!(u.app_key, encode(4242));
    assert_eq!(
        u.callback_url,
        format!("https://pipehub.example/send/{}", encode(4242))
    );
}

#[test]
fn to_party_reaches_the_wechat_plan() {
    let plan = prepare(
        Some(tenant(1, "", false)),
        Some(channels("ci", "")),
        message(Some("hi"), Some("2")),
        Vec::new(),
    )
    .unwrap();
    assert_eq!(plan.wechat.unwrap().to_party.as_deref(), Some("2"));
}
