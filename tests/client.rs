use gateway_client::client::{
    api_url, channel_messages_endpoint, create_message_body, gateway_endpoint,
    parse_reset_after_millis, rate_limit_end, reaction_endpoint, url_encode, wait_millis,
    GatewayError, WSS_PORT,
};
use gateway_client::event::parse_frame;
use gateway_client::types::{Id, Intent, Intents, Status, Token, TokenBuf};

#[test]
fn exhausted_route_defers_until_reset() {
    let end = rate_limit_end(10_000, Some("0"), Some("2.0"));
    assert_eq!(end, Some(12_000));
    assert_eq!(wait_millis(end, 10_000), 2000);
    assert_eq!(wait_millis(end, 11_500), 500);
    assert_eq!(wait_millis(end, 12_000), 0);
    assert_eq!(wait_millis(end, 13_000), 0);
}

#[test]
fn remaining_calls_give_no_deferral() {
    assert_eq!(rate_limit_end(10, Some("3"), Some("2.0")), None);
    assert_eq!(rate_limit_end(10, None, Some("2.0")), None);
    assert_eq!(rate_limit_end(10, Some("0"), None), None);
    assert_eq!(rate_limit_end(10, Some("zero"), Some("2")), None);
    assert_eq!(rate_limit_end(10, Some("0"), Some("soon")), None);
    assert_eq!(wait_millis(None, 10), 0);
    assert_eq!(rate_limit_end(u64::MAX - 5, Some("0"), Some("1")), Some(u64::MAX));
}

#[test]
fn reset_after_in_milliseconds() {
    assert_eq!(parse_reset_after_millis("2"), Some(2000));
    assert_eq!(parse_reset_after_millis("2.0"), Some(2000));
    assert_eq!(parse_reset_after_millis("1.25"), Some(1250));
    assert_eq!(parse_reset_after_millis("0.5"), Some(500));
    assert_eq!(parse_reset_after_millis("0.0005"), Some(1));
    assert_eq!(parse_reset_after_millis("1.2340"), Some(1234));
    assert_eq!(parse_reset_after_millis("2."), None);
    assert_eq!(parse_reset_after_millis(".5"), None);
    assert_eq!(parse_reset_after_millis("1.2.3"), None);
    assert_eq!(parse_reset_after_millis(""), None);
    assert_eq!(parse_reset_after_millis("18446744073709551615"), None);
}

#[test]
fn percent_encoding() {
    assert_eq!(url_encode("abc-_.~XYZ09"), "abc-_.~XYZ09");
    assert_eq!(url_encode("bonk:756521659938111602"), "bonk%3A756521659938111602");
    assert_eq!(url_encode("\u{1F4A6}"), "%F0%9F%92%A6");
    assert_eq!(url_encode("a b\t"), "a%20b%09");
    assert_eq!(url_encode(""), "");
}

#[test]
fn endpoints() {
    assert_eq!(api_url("gateway/bot"), "https://discord.com/api/gateway/bot");
    assert_eq!(api_url("/channels/1/messages"), "https://discord.com/api/channels/1/messages");
    assert_eq!(channel_messages_endpoint(Id(12), None), "/channels/12/messages");
    assert_eq!(
        channel_messages_endpoint(Id(12), Some(Id(345))),
        "/channels/12/messages?before=345"
    );
    assert_eq!(
        reaction_endpoint(Id(1), Id(2), "bonk:75"),
        "/channels/1/messages/2/reactions/bonk%3A75/@me"
    );
}

#[test]
fn message_body() {
    let v: serde_json::Value = serde_json::from_str(&create_message_body("u \"wot\" m8")).unwrap();
    assert_eq!(v["content"], "u \"wot\" m8");
    assert_eq!(v.as_object().unwrap().len(), 1);
}

#[test]
fn gateway_endpoint_resolves() {
    let body = parse_frame(r#"{"url":"wss://gateway.discord.gg","shards":1}"#).unwrap();
    let e = gateway_endpoint(&body).unwrap();
    assert_eq!(e.url, "wss://gateway.discord.gg/?v=8&encoding=json");
    assert_eq!(e.host, "gateway.discord.gg");
    assert_eq!(e.port, WSS_PORT);
}

#[test]
fn gateway_endpoint_errors() {
    let body = parse_frame(r#"{"shards":1}"#).unwrap();
    assert_eq!(gateway_endpoint(&body).unwrap_err(), GatewayError::MissingUrl);
    let body = parse_frame(r#"{"url":"not a url"}"#).unwrap();
    assert_eq!(gateway_endpoint(&body).unwrap_err(), GatewayError::InvalidUrl);
    let body = parse_frame(r#"{"url":"data:text/plain,x"}"#).unwrap();
    assert_eq!(gateway_endpoint(&body).unwrap_err(), GatewayError::NoHost);
}

#[test]
fn intents_combine() {
    assert_eq!(Intent::Guilds.and(Intent::GuildMessages), Intents(0x201));
    assert_eq!(Intents(0x1).and(Intent::DirectMessageTyping), Intents(0x4001));
    assert_eq!(
        Intents::from_list(&[Intent::GuildMessages, Intent::DirectMessages, Intent::GuildMessages]),
        Intents(0x1200)
    );
    assert_eq!(Intents::from_list(&[]), Intents(0));
    assert_eq!(Intents::from(Intent::GuildBans), Intents(0x4));
}

#[test]
fn status_names() {
    assert_eq!(Status::Online.name(), "online");
    assert_eq!(Status::Dnd.name(), "dnd");
    assert_eq!(Status::Invisible.name(), "invisible");
}

#[test]
fn tokens() {
    let t = TokenBuf::from("abc".to_string());
    assert_eq!(t.as_token().as_str(), "abc");
    assert_eq!(Token("x").as_str(), "x");
}
