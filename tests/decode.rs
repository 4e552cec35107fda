use gateway_client::event::{
    decode_event, decode_messages, parse_frame, DecodeError, DispatchPayload, Event,
};
use gateway_client::json::{Json, JsonNumber};
use gateway_client::strings::StrCow;
use gateway_client::types::{Id, ParseIdError, Sequence};

const MESSAGE: &str = r#"{"op":0,"t":"MESSAGE_CREATE","s":12,"d":{"content":"hello <@!80351110224678912>","id":"334385199974967042","channel_id":"290926798999357250","timestamp":"2021-01-01T00:00:00.000000+00:00","author":{"id":"53908099506183680","username":"Mason","discriminator":"9999"},"mentions":[{"id":"80351110224678912","username":"Nelly","discriminator":"1337"}]}}"#;

#[test]
fn hello_decodes() {
    let doc = parse_frame(r#"{"op":10,"d":{"heartbeat_interval":41250}}"#).unwrap();
    match decode_event(&doc) {
        Ok(Event::Hello(h)) => assert_eq!(h.heartbeat_interval, 41250),
        other => panic!("{:?}", other),
    }
}

#[test]
fn ready_decodes() {
    let doc = parse_frame(r#"{"op":0,"t":"READY","s":1,"d":{"user":{"id":"1","username":"u","discriminator":"0001"},"session_id":"abc123"}}"#).unwrap();
    match decode_event(&doc) {
        Ok(Event::Dispatch(d)) => {
            assert_eq!(d.seq, Sequence(1));
            match d.payload {
                DispatchPayload::Ready(r) => {
                    assert_eq!(r.session_id, "abc123");
                    assert_eq!(r.user.id, Id(1));
                    assert_eq!(r.user.username, "u");
                    assert_eq!(r.user.discriminator, "0001");
                }
                other => panic!("{:?}", other),
            }
        }
        other => panic!("{:?}", other),
    }
}

#[test]
fn message_create_decodes() {
    let doc = parse_frame(MESSAGE).unwrap();
    match decode_event(&doc) {
        Ok(Event::Dispatch(d)) => {
            assert_eq!(d.seq, Sequence(12));
            match d.payload {
                DispatchPayload::MessageCreate(m) => {
                    assert_eq!(m.content.as_str(), "hello <@!80351110224678912>");
                    assert_eq!(m.id, Id(334385199974967042));
                    assert_eq!(m.channel_id, Id(290926798999357250));
                    assert_eq!(m.timestamp, 1609459200000);
                    assert_eq!(m.author.username, "Mason");
                    assert_eq!(m.mentions.len(), 1);
                    assert_eq!(m.mentions[0].id, Id(80351110224678912));
                }
                other => panic!("{:?}", other),
            }
        }
        other => panic!("{:?}", other),
    }
}

#[test]
fn typing_start_decodes_with_optional_members() {
    let doc = parse_frame(r#"{"op":0,"t":"TYPING_START","s":3,"d":{"channel_id":"7","guild_id":null,"user_id":"8","timestamp":-5,"member":{"nick":"bean"}}}"#).unwrap();
    match decode_event(&doc) {
        Ok(Event::Dispatch(d)) => match d.payload {
            DispatchPayload::TypingStart(t) => {
                assert_eq!(t.channel_id, Id(7));
                assert_eq!(t.guild_id, None);
                assert_eq!(t.user_id, Id(8));
                assert_eq!(t.timestamp, -5);
                let member = t.member.unwrap();
                assert!(member.user.is_none());
                assert_eq!(member.nick.unwrap().as_str(), "bean");
            }
            other => panic!("{:?}", other),
        },
        other => panic!("{:?}", other),
    }
}

#[test]
fn simple_envelopes_decode() {
    let doc = parse_frame(r#"{"op":7,"d":null}"#).unwrap();
    assert!(matches!(decode_event(&doc), Ok(Event::Reconnect)));
    let doc = parse_frame(r#"{"op":9,"d":true}"#).unwrap();
    assert!(matches!(decode_event(&doc), Ok(Event::InvalidSession(true))));
    let doc = parse_frame(r#"{"op":11,"d":null,"s":null,"t":null}"#).unwrap();
    assert!(matches!(decode_event(&doc), Ok(Event::HeartbeatAck)));
}

#[test]
fn unknown_event_type_is_a_decode_error() {
    let doc = parse_frame(r#"{"op":0,"t":"GUILD_CREATE","s":2,"d":{}}"#).unwrap();
    match decode_event(&doc) {
        Err(DecodeError::UnknownEventType(t)) => assert_eq!(t, "GUILD_CREATE"),
        other => panic!("{:?}", other),
    }
}

#[test]
fn unknown_op_is_a_decode_error() {
    let doc = parse_frame(r#"{"op":3,"d":null}"#).unwrap();
    assert!(matches!(decode_event(&doc), Err(DecodeError::UnknownOp(3))));
}

#[test]
fn malformed_envelopes() {
    for text in [
        r#"{"op":11}"#,
        r#"{"d":null}"#,
        r#"{"op":256,"d":null}"#,
        r#"{"op":11,"d":5}"#,
        r#"{"op":7,"d":{}}"#,
        r#"{"op":9,"d":null}"#,
        r#"{"op":0,"s":1,"d":{}}"#,
        r#"{"op":0,"t":"READY","d":{}}"#,
        r#"{"op":0,"t":"READY","s":1,"d":{"session_id":"x"}}"#,
        r#"{"op":0,"t":5,"s":1,"d":{}}"#,
        r#"[1,2]"#,
    ] {
        let doc = parse_frame(text).unwrap();
        assert!(matches!(decode_event(&doc), Err(DecodeError::Malformed)), "{}", text);
    }
}

#[test]
fn not_json_frame() {
    assert!(matches!(parse_frame("{\"op\":"), Err(DecodeError::NotJson)));
}

#[test]
fn messages_list_decodes() {
    let doc = parse_frame(r#"[{"content":"a","id":"1","channel_id":"2","timestamp":"1970-01-01T00:00:01Z","author":{"id":"3","username":"x","discriminator":"1"},"mentions":[]}]"#).unwrap();
    let messages = decode_messages(&doc).unwrap();
    assert_eq!(messages.len(), 1);
    assert_eq!(messages[0].timestamp, 1000);
    let doc = parse_frame(r#"[{"content":"a"}]"#).unwrap();
    assert!(decode_messages(&doc).is_none());
    let doc = parse_frame(r#"{"content":"a"}"#).unwrap();
    assert!(decode_messages(&doc).is_none());
}

#[test]
fn id_parses_and_prints() {
    assert_eq!(Id::parse("290926798999357250"), Ok(Id(290926798999357250)));
    assert_eq!(Id::parse("+7"), Ok(Id(7)));
    assert_eq!(Id::parse("18446744073709551615"), Ok(Id(u64::MAX)));
    assert_eq!(Id::parse("18446744073709551616"), Err(ParseIdError));
    assert_eq!(Id::parse(""), Err(ParseIdError));
    assert_eq!(Id::parse("+"), Err(ParseIdError));
    assert_eq!(Id::parse("12a"), Err(ParseIdError));
    assert_eq!(Id::parse("-1"), Err(ParseIdError));
    assert_eq!(Id(0).to_decimal(), "0");
    assert_eq!(Id(290926798999357250).to_decimal(), "290926798999357250");
    assert_eq!(Id(u64::MAX).to_decimal(), "18446744073709551615");
}

fn message_at(timestamp: &str) -> String {
    format!(
        r#"[{{"content":"a","id":"1","channel_id":"2","timestamp":"{}","author":{{"id":"3","username":"x","discriminator":"1"}},"mentions":[]}}]"#,
        timestamp
    )
}

#[test]
fn timestamps_read_through_chrono() {
    let doc = parse_frame(&message_at("2021-01-01T00:00:00.000000+00:00")).unwrap();
    assert_eq!(decode_messages(&doc).unwrap()[0].timestamp, 1609459200000);
    let doc = parse_frame(&message_at("1970-01-01T01:00:00.5+01:00")).unwrap();
    assert_eq!(decode_messages(&doc).unwrap()[0].timestamp, 500);
    let doc = parse_frame(&message_at("yesterday")).unwrap();
    assert!(decode_messages(&doc).is_none());
}

#[test]
fn json_documents_read_through_serde() {
    let doc = parse_frame(r#"{"a":[1,-2,1.5,"x",true,null]}"#).unwrap();
    match &doc {
        Json::Object(fields) => {
            assert_eq!(fields[0].0, "a");
            match &fields[0].1 {
                Json::Array(items) => {
                    assert!(matches!(items[0], Json::Number(JsonNumber::Unsigned(1))));
                    assert!(matches!(items[1], Json::Number(JsonNumber::Signed(-2))));
                    assert!(matches!(&items[2], Json::Number(JsonNumber::Decimal(t)) if t == "1.5"));
                }
                other => panic!("{:?}", other),
            }
        }
        other => panic!("{:?}", other),
    }
    assert!(parse_frame("nope").is_err());
}

#[test]
fn str_cow_variants() {
    let b = StrCow::from_str("abc");
    assert_eq!(b.as_str(), "abc");
    assert!(matches!(b.get_ref(), std::borrow::Cow::Borrowed(_)));
    let mut o = StrCow::from_string("xyz".to_string());
    assert!(matches!(o.get_ref(), std::borrow::Cow::Owned(_)));
    o.get_mut().to_mut().push('!');
    assert_eq!(o.as_str(), "xyz!");
    assert_eq!(StrCow::from_cow(std::borrow::Cow::Borrowed("q")).into_cow(), "q");
}
