use gateway_client::command::{CommandSerializer, Heartbeat};
use gateway_client::event::{decode_event, parse_frame, DecodeError, DispatchPayload};
use gateway_client::json::Json;
use gateway_client::session::{
    expect_hello, expect_ready, identify, Action, Incoming, LoopEvent, ProtocolError, Session,
    SequenceGap, SessionState,
};
use gateway_client::types::{Intent, Sequence, TokenBuf};

const HELLO: &str = r#"{"op":10,"d":{"heartbeat_interval":41250},"s":null,"t":null}"#;
const READY: &str = r#"{"op":0,"t":"READY","s":1,"d":{"user":{"id":"80351110224678912","username":"Nelly","discriminator":"1337"},"session_id":"abc123"}}"#;

fn dispatch_frame(seq: usize) -> String {
    format!(
        r#"{{"op":0,"t":"TYPING_START","s":{},"d":{{"channel_id":"41771983423143937","user_id":"80351110224678912","timestamp":1609459200}}}}"#,
        seq
    )
}

fn handshake() -> Session {
    let hello = parse_frame(HELLO).unwrap();
    let interval = expect_hello(Incoming::Frame(decode_event(&hello))).unwrap();
    let ready = parse_frame(READY).unwrap();
    let (session, payload) =
        expect_ready(TokenBuf::from("secret".to_string()), interval, Incoming::Frame(decode_event(&ready)))
            .unwrap();
    assert!(matches!(payload, DispatchPayload::Ready(_)));
    session
}

fn session_at(seq: usize) -> Session {
    Session {
        state: SessionState {
            seq: Sequence(seq),
            heartbeat_interval: 1000,
            session_id: "abc123".to_string(),
            heartbeat_acked: true,
        },
        token: TokenBuf::from("secret".to_string()),
        closing: false,
        resume_pending: false,
    }
}

fn deliver(session: &mut Session, doc: &Json) -> Option<SequenceGap> {
    match session.step(LoopEvent::Received(Incoming::Frame(decode_event(doc)))) {
        Action::Deliver { gap, .. } => gap,
        other => panic!("expected a delivery, got {:?}", other),
    }
}

#[test]
fn handshake_yields_session_state() {
    let session = handshake();
    assert_eq!(session.state.seq, Sequence(1));
    assert_eq!(session.state.heartbeat_interval, 41250);
    assert_eq!(session.state.session_id, "abc123");
    assert!(session.state.heartbeat_acked);
    assert!(!session.closing);
}

#[test]
fn handshake_rejects_other_first_message() {
    let ack = parse_frame(r#"{"op":11,"d":null}"#).unwrap();
    let r = expect_hello(Incoming::Frame(decode_event(&ack)));
    assert!(matches!(r, Err(ProtocolError::ExpectedHello)));
    assert!(matches!(expect_hello(Incoming::EndOfStream), Err(ProtocolError::EndOfStream)));
    assert!(matches!(expect_hello(Incoming::OtherFrame), Err(ProtocolError::UnexpectedFrame)));
    let bad = parse_frame(r#"{"op":10}"#).unwrap();
    assert!(matches!(
        expect_hello(Incoming::Frame(decode_event(&bad))),
        Err(ProtocolError::Undecodable(DecodeError::Malformed))
    ));
}

#[test]
fn handshake_rejects_other_second_message() {
    let hello = parse_frame(HELLO).unwrap();
    let r = expect_ready(TokenBuf::from("t".to_string()), 5, Incoming::Frame(decode_event(&hello)));
    assert!(matches!(r, Err(ProtocolError::ExpectedReady)));
    let typing = parse_frame(&dispatch_frame(1)).unwrap();
    let r = expect_ready(TokenBuf::from("t".to_string()), 5, Incoming::Frame(decode_event(&typing)));
    assert!(matches!(r, Err(ProtocolError::ExpectedReady)));
    let r = expect_ready(TokenBuf::from("t".to_string()), 5, Incoming::EndOfStream);
    assert!(matches!(r, Err(ProtocolError::EndOfStream)));
}

#[test]
fn sequence_follows_dispatches() {
    let mut session = session_at(1);
    for seq in [2usize, 3, 7, 4] {
        let doc = parse_frame(&dispatch_frame(seq)).unwrap();
        deliver(&mut session, &doc);
        assert_eq!(session.state.seq, Sequence(seq));
    }
}

#[test]
fn sequence_gap_is_reported_and_followed() {
    let mut session = session_at(5);
    let doc = parse_frame(&dispatch_frame(8)).unwrap();
    let gap = deliver(&mut session, &doc);
    assert_eq!(gap, Some(SequenceGap { previous: Sequence(5), received: Sequence(8) }));
    assert_eq!(session.state.seq, Sequence(8));
    let doc = parse_frame(&dispatch_frame(9)).unwrap();
    assert_eq!(deliver(&mut session, &doc), None);
    assert_eq!(session.state.seq, Sequence(9));
}

#[test]
fn missed_ack_closes_once_then_resumes() {
    let mut session = session_at(4);
    match session.step(LoopEvent::Timer) {
        Action::SendHeartbeat(Heartbeat(s)) => assert_eq!(s, Some(Sequence(4))),
        other => panic!("expected a heartbeat, got {:?}", other),
    }
    assert!(!session.state.heartbeat_acked);
    assert!(matches!(session.step(LoopEvent::Timer), Action::Close));
    assert!(matches!(session.step(LoopEvent::Timer), Action::Nothing));
    let reconnect = parse_frame(r#"{"op":7,"d":null}"#).unwrap();
    assert!(matches!(
        session.step(LoopEvent::Received(Incoming::Frame(decode_event(&reconnect)))),
        Action::Nothing
    ));
    match session.step(LoopEvent::Received(Incoming::EndOfStream)) {
        Action::Reconnect(resume) => {
            assert_eq!(resume.session_id, "abc123");
            assert_eq!(resume.seq, Sequence(4));
        }
        other => panic!("expected a reconnect, got {:?}", other),
    }
    assert!(session.state.heartbeat_acked);
    assert!(!session.closing);
}

#[test]
fn acknowledged_heartbeat_keeps_connection() {
    let mut session = session_at(2);
    assert!(matches!(session.step(LoopEvent::Timer), Action::SendHeartbeat(_)));
    let ack = parse_frame(r#"{"op":11,"d":null}"#).unwrap();
    assert!(matches!(
        session.step(LoopEvent::Received(Incoming::Frame(decode_event(&ack)))),
        Action::Nothing
    ));
    assert!(session.state.heartbeat_acked);
    assert!(matches!(session.step(LoopEvent::Timer), Action::SendHeartbeat(_)));
}

#[test]
fn end_of_stream_after_handshake_resumes_with_captured_identity() {
    let mut session = handshake();
    let doc = parse_frame(&dispatch_frame(2)).unwrap();
    deliver(&mut session, &doc);
    match session.step(LoopEvent::Received(Incoming::EndOfStream)) {
        Action::Reconnect(resume) => {
            assert_eq!(resume.token.0, "secret");
            assert_eq!(resume.session_id, "abc123");
            assert_eq!(resume.seq, Sequence(2));
            let text = CommandSerializer(resume).serialize();
            let v: serde_json::Value = serde_json::from_str(&text).unwrap();
            assert_eq!(v["op"], 6);
            assert_eq!(v["d"]["token"], "secret");
            assert_eq!(v["d"]["session_id"], "abc123");
            assert_eq!(v["d"]["seq"], 2);
        }
        other => panic!("expected a reconnect, got {:?}", other),
    }
}

#[test]
fn unknown_event_type_is_logged_and_loop_goes_on() {
    let mut session = session_at(3);
    let doc = parse_frame(r#"{"op":0,"t":"SOMETHING_NEW","s":4,"d":{}}"#).unwrap();
    match session.step(LoopEvent::Received(Incoming::Frame(decode_event(&doc)))) {
        Action::LogDecodeError(DecodeError::UnknownEventType(t)) => assert_eq!(t, "SOMETHING_NEW"),
        other => panic!("expected a decode error, got {:?}", other),
    }
    assert_eq!(session.state.seq, Sequence(3));
    assert!(session.state.heartbeat_acked);
    assert!(!session.closing);
    let doc = parse_frame(&dispatch_frame(4)).unwrap();
    assert_eq!(deliver(&mut session, &doc), None);
    assert_eq!(session.state.seq, Sequence(4));
}

#[test]
fn invalid_session_is_logged() {
    let mut session = session_at(3);
    let doc = parse_frame(r#"{"op":9,"d":false}"#).unwrap();
    assert!(matches!(
        session.step(LoopEvent::Received(Incoming::Frame(decode_event(&doc)))),
        Action::LogInvalidSession(false)
    ));
    assert_eq!(session.state.seq, Sequence(3));
}

fn invalid_session(session: &mut Session, resumable: bool) -> Action<'static> {
    let text = format!(r#"{{"op":9,"d":{}}}"#, resumable);
    let doc = parse_frame(&text).unwrap();
    match session.step(LoopEvent::Received(Incoming::Frame(decode_event(&doc)))) {
        Action::StartOver => Action::StartOver,
        Action::LogInvalidSession(b) => Action::LogInvalidSession(b),
        other => panic!("unexpected {:?}", other),
    }
}

#[test]
fn rejected_resume_starts_over() {
    let mut session = session_at(3);
    assert!(matches!(session.step(LoopEvent::Received(Incoming::EndOfStream)), Action::Reconnect(_)));
    assert!(session.resume_pending);
    assert!(matches!(invalid_session(&mut session, true), Action::LogInvalidSession(true)));
    assert!(matches!(invalid_session(&mut session, false), Action::StartOver));
}

#[test]
fn resumed_session_is_no_longer_pending() {
    let mut session = session_at(3);
    session.step(LoopEvent::Received(Incoming::EndOfStream));
    let doc = parse_frame(&dispatch_frame(4)).unwrap();
    deliver(&mut session, &doc);
    assert!(!session.resume_pending);
    assert!(matches!(invalid_session(&mut session, false), Action::LogInvalidSession(false)));
}

#[test]
fn reconnect_request_closes() {
    let mut session = session_at(3);
    let doc = parse_frame(r#"{"op":7,"d":null}"#).unwrap();
    assert!(matches!(
        session.step(LoopEvent::Received(Incoming::Frame(decode_event(&doc)))),
        Action::Close
    ));
    assert!(session.closing);
    assert!(matches!(session.step(LoopEvent::Received(Incoming::OtherFrame)), Action::Nothing));
}

#[test]
fn identify_command_text() {
    let token = TokenBuf::from("secret".to_string());
    let intents = Intent::GuildMessages.and(Intent::DirectMessages);
    let text = CommandSerializer(identify(&token, intents)).serialize();
    let v: serde_json::Value = serde_json::from_str(&text).unwrap();
    assert_eq!(v["op"], 2);
    assert_eq!(v["d"]["token"], "secret");
    assert_eq!(v["d"]["intents"], 0x1200);
    assert_eq!(v["d"]["properties"]["$os"], "windows");
    assert_eq!(v["d"]["properties"]["$browser"], "tungstenite");
    assert_eq!(v["d"]["properties"]["$device"], "rust");
    assert!(v["d"]["compress"].is_null());
    assert!(v["d"]["large_threshold"].is_null());
}

#[test]
fn heartbeat_command_text() {
    let v: serde_json::Value =
        serde_json::from_str(&CommandSerializer(Heartbeat(Some(Sequence(42)))).serialize()).unwrap();
    assert_eq!(v["op"], 1);
    assert_eq!(v["d"], 42);
    let v: serde_json::Value =
        serde_json::from_str(&CommandSerializer(Heartbeat(None)).serialize()).unwrap();
    assert_eq!(v["op"], 1);
    assert!(v["d"].is_null());
}
