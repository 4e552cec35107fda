use crate::json::{get_member, member, parse_json, json_of, str_equal, Json, JsonNumber};
use crate::strings::StrCow;
use crate::types::{
    decimal_value, is_u64_text, parse_timestamp_millis, timestamp_millis_of, unsigned_digits,
    users_view, Id, Member, MemberView, Message, MessageView, Sequence, User, UserView,
};
use vstd::prelude::*;

verus! {

// What the members of a decoded object may hold.

/// A string member.
pub open spec fn text_of(j: Option<Json>) -> Option<Seq<char>> {
    match j {
        Some(Json::Str(s)) => Some(s@),
        _ => None,
    }
}

/// A member that holds an identifier, written as a decimal string.
pub open spec fn id_of(j: Option<Json>) -> Option<u64> {
    match j {
        Some(Json::Str(s)) => if is_u64_text(s@) {
            Some(decimal_value(unsigned_digits(s@)) as u64)
        } else {
            None
        },
        _ => None,
    }
}

/// An optional member: absent or `null` gives `Some(None)`; a value that `of` reads gives
/// `Some(Some(..))`; anything else is malformed (`None`).
pub open spec fn nullable<T>(j: Option<Json>, of: spec_fn(Option<Json>) -> Option<T>) -> Option<
    Option<T>,
> {
    match j {
        None => Some(None),
        Some(Json::Null) => Some(None),
        Some(v) => match of(Some(v)) {
            Some(x) => Some(Some(x)),
            None => None,
        },
    }
}

/// A member that holds an unsigned integer no larger than `max`.
pub open spec fn unsigned_of(j: Option<Json>, max: u64) -> Option<u64> {
    match j {
        Some(Json::Number(JsonNumber::Unsigned(n))) => if n <= max {
            Some(n)
        } else {
            None
        },
        _ => None,
    }
}

/// A member that holds a 32-bit signed integer.
pub open spec fn i32_of(j: Option<Json>) -> Option<i32> {
    match j {
        Some(Json::Number(JsonNumber::Unsigned(n))) => if n <= i32::MAX {
            Some(n as i32)
        } else {
            None
        },
        Some(Json::Number(JsonNumber::Signed(n))) => if i32::MIN <= n {
            Some(n as i32)
        } else {
            None
        },
        _ => None,
    }
}

pub open spec fn opt_str_view(r: Option<&str>) -> Option<Seq<char>> {
    match r {
        Some(s) => Some(s@),
        None => None,
    }
}

pub open spec fn opt_id_view(r: Option<Id>) -> Option<u64> {
    match r {
        Some(i) => Some(i.0),
        None => None,
    }
}

pub open spec fn opt_user_view<'a>(r: Option<User<'a>>) -> Option<UserView> {
    match r {
        Some(u) => Some(u@),
        None => None,
    }
}

fn str_member<'a>(fields: &'a Vec<(String, Json)>, key: &str) -> (r: Option<&'a str>)
    ensures
        opt_str_view(r) == text_of(member(fields@, key@)),
{
    match get_member(fields, key) {
        Some(Json::Str(s)) => Some(s.as_str()),
        _ => None,
    }
}

fn id_in(j: Option<&Json>) -> (r: Option<Id>)
    ensures
        opt_id_view(r) == id_of(
            match j {
                Some(v) => Some(*v),
                None => None,
            },
        ),
{
    match j {
        Some(Json::Str(s)) => match Id::parse(s.as_str()) {
            Ok(id) => Some(id),
            Err(_) => None,
        },
        _ => None,
    }
}

fn id_member(fields: &Vec<(String, Json)>, key: &str) -> (r: Option<Id>)
    ensures
        opt_id_view(r) == id_of(member(fields@, key@)),
{
    id_in(get_member(fields, key))
}

/// Decodes a user object.
pub fn decode_user<'a>(j: &'a Json) -> (r: Option<User<'a>>)
    ensures
        opt_user_view(r) == user_of(*j),
{
    match j {
        Json::Object(fields) => {
            let id = id_member(fields, "id");
            let username = str_member(fields, "username");
            let discriminator = str_member(fields, "discriminator");
            match (id, username, discriminator) {
                (Some(id), Some(username), Some(discriminator)) => Some(
                    User { id, username, discriminator },
                ),
                _ => None,
            }
        },
        _ => None,
    }
}

/// What a user object decodes to.
pub open spec fn user_of(j: Json) -> Option<UserView> {
    match j {
        Json::Object(fields) => {
            let id = id_of(member(fields@, "id"@));
            let username = text_of(member(fields@, "username"@));
            let discriminator = text_of(member(fields@, "discriminator"@));
            if id is Some && username is Some && discriminator is Some {
                Some(
                    UserView {
                        id: id->0,
                        username: username->0,
                        discriminator: discriminator->0,
                    },
                )
            } else {
                None
            }
        },
        _ => None,
    }
}

/// What a list of user objects decodes to.
pub open spec fn users_of(items: Seq<Json>) -> Option<Seq<UserView>>
    decreases items.len(),
{
    if items.len() == 0 {
        Some(Seq::empty())
    } else {
        match (users_of(items.drop_last()), user_of(items.last())) {
            (Some(us), Some(u)) => Some(us.push(u)),
            _ => None,
        }
    }
}

proof fn lemma_users_of_prefix_fails(items: Seq<Json>, i: int, j: int)
    requires
        0 <= i <= j <= items.len(),
        users_of(items.subrange(0, i)) is None,
    ensures
        users_of(items.subrange(0, j)) is None,
    decreases j - i,
{
    if i < j {
        lemma_users_of_prefix_fails(items, i, j - 1);
        assert(items.subrange(0, j).drop_last() =~= items.subrange(0, j - 1));
    }
}

/// Decodes an array of user objects.
pub fn decode_users<'a>(items: &'a Vec<Json>) -> (r: Option<Vec<User<'a>>>)
    ensures
        match r {
            Some(v) => users_of(items@) == Some(users_view(v@)),
            None => users_of(items@) is None,
        },
{
    let mut out: Vec<User<'a>> = Vec::new();
    let mut i: usize = 0;
    assert(items@.subrange(0, 0) =~= Seq::<Json>::empty());
    assert(users_view(out@) =~= Seq::<UserView>::empty());
    while i < items.len()
        invariant
            i <= items@.len(),
            users_of(items@.subrange(0, i as int)) == Some(users_view(out@)),
        decreases items@.len() - i,
    {
        let ghost prefix = items@.subrange(0, i + 1);
        assert(prefix.drop_last() =~= items@.subrange(0, i as int));
        assert(prefix.last() == items@[i as int]);
        match decode_user(&items[i]) {
            Some(u) => {
                let ghost before = out@;
                out.push(u);
                assert(users_view(out@) =~= users_view(before).push(u@));
            },
            None => {
                proof {
                    lemma_users_of_prefix_fails(items@, i + 1, items@.len() as int);
                    assert(items@.subrange(0, items@.len() as int) =~= items@);
                }
                return None;
            },
        }
        i = i + 1;
    }
    assert(items@.subrange(0, items@.len() as int) =~= items@);
    Some(out)
}

/// What a guild member object decodes to.
pub open spec fn member_of(j: Json) -> Option<MemberView> {
    match j {
        Json::Object(fields) => {
            let user = nullable(
                member(fields@, "user"@),
                |x: Option<Json>|
                    match x {
                        Some(v) => user_of(v),
                        None => None,
                    },
            );
            let nick = nullable(member(fields@, "nick"@), |x: Option<Json>| text_of(x));
            if user is Some && nick is Some {
                Some(MemberView { user: user->0, nick: nick->0 })
            } else {
                None
            }
        },
        _ => None,
    }
}

/// Decodes a guild member object.
pub fn decode_member<'a>(j: &'a Json) -> (r: Option<Member<'a>>)
    ensures
        match r {
            Some(m) => member_of(*j) == Some(m@),
            None => member_of(*j) is None,
        },
{
    match j {
        Json::Object(fields) => {
            let user = match get_member(fields, "user") {
                None => Some(None),
                Some(Json::Null) => Some(None),
                Some(v) => match decode_user(v) {
                    Some(u) => Some(Some(u)),
                    None => None,
                },
            };
            let nick = match get_member(fields, "nick") {
                None => Some(None),
                Some(Json::Null) => Some(None),
                Some(Json::Str(s)) => Some(Some(StrCow::from_str(s.as_str()))),
                Some(_) => None,
            };
            match (user, nick) {
                (Some(user), Some(nick)) => Some(Member { user, nick }),
                _ => None,
            }
        },
        _ => None,
    }
}

/// What a chat message object decodes to.
pub open spec fn message_of(j: Json) -> Option<MessageView> {
    match j {
        Json::Object(fields) => {
            let content = text_of(member(fields@, "content"@));
            let id = id_of(member(fields@, "id"@));
            let channel_id = id_of(member(fields@, "channel_id"@));
            let timestamp = match text_of(member(fields@, "timestamp"@)) {
                Some(t) => timestamp_millis_of(t),
                None => None,
            };
            let author = match member(fields@, "author"@) {
                Some(a) => user_of(a),
                None => None,
            };
            let mentions = match member(fields@, "mentions"@) {
                Some(Json::Array(items)) => users_of(items@),
                _ => None,
            };
            if content is Some && id is Some && channel_id is Some && timestamp is Some
                && author is Some && mentions is Some {
                Some(
                    MessageView {
                        content: content->0,
                        id: id->0,
                        channel_id: channel_id->0,
                        timestamp: timestamp->0,
                        author: author->0,
                        mentions: mentions->0,
                    },
                )
            } else {
                None
            }
        },
        _ => None,
    }
}

/// Decodes a chat message object.
pub fn decode_message<'a>(j: &'a Json) -> (r: Option<Message<'a>>)
    ensures
        match r {
            Some(m) => message_of(*j) == Some(m@),
            None => message_of(*j) is None,
        },
{
    match j {
        Json::Object(fields) => {
            let content = str_member(fields, "content");
            let id = id_member(fields, "id");
            let channel_id = id_member(fields, "channel_id");
            let timestamp = match str_member(fields, "timestamp") {
                Some(t) => parse_timestamp_millis(t),
                None => None,
            };
            let author = match get_member(fields, "author") {
                Some(a) => decode_user(a),
                None => None,
            };
            let mentions = match get_member(fields, "mentions") {
                Some(Json::Array(items)) => decode_users(items),
                _ => None,
            };
            match (content, id, channel_id, timestamp, author, mentions) {
                (
                    Some(content),
                    Some(id),
                    Some(channel_id),
                    Some(timestamp),
                    Some(author),
                    Some(mentions),
                ) => Some(
                    Message {
                        content: StrCow::from_str(content),
                        id,
                        channel_id,
                        timestamp,
                        author,
                        mentions,
                    },
                ),
                _ => None,
            }
        },
        _ => None,
    }
}

/// What a list of chat message objects decodes to.
pub open spec fn messages_of(items: Seq<Json>) -> Option<Seq<MessageView>>
    decreases items.len(),
{
    if items.len() == 0 {
        Some(Seq::empty())
    } else {
        match (messages_of(items.drop_last()), message_of(items.last())) {
            (Some(ms), Some(m)) => Some(ms.push(m)),
            _ => None,
        }
    }
}

proof fn lemma_messages_of_prefix_fails(items: Seq<Json>, i: int, j: int)
    requires
        0 <= i <= j <= items.len(),
        messages_of(items.subrange(0, i)) is None,
    ensures
        messages_of(items.subrange(0, j)) is None,
    decreases j - i,
{
    if i < j {
        lemma_messages_of_prefix_fails(items, i, j - 1);
        assert(items.subrange(0, j).drop_last() =~= items.subrange(0, j - 1));
    }
}

pub open spec fn messages_view<'a>(ms: Seq<Message<'a>>) -> Seq<MessageView> {
    ms.map_values(|m: Message<'a>| m@)
}

/// Decodes a response body that lists chat messages (a JSON array of message objects).
pub fn decode_messages<'a>(body: &'a Json) -> (r: Option<Vec<Message<'a>>>)
    ensures
        match body {
            Json::Array(items) => match r {
                Some(v) => messages_of(items@) == Some(messages_view(v@)),
                None => messages_of(items@) is None,
            },
            _ => r is None,
        },
{
    let items = match body {
        Json::Array(items) => items,
        _ => return None,
    };
    let mut out: Vec<Message<'a>> = Vec::new();
    let mut i: usize = 0;
    assert(items@.subrange(0, 0) =~= Seq::<Json>::empty());
    assert(messages_view(out@) =~= Seq::<MessageView>::empty());
    while i < items.len()
        invariant
            i <= items@.len(),
            messages_of(items@.subrange(0, i as int)) == Some(messages_view(out@)),
            body matches Json::Array(all) && all@ == items@,
        decreases items@.len() - i,
    {
        let ghost prefix = items@.subrange(0, i + 1);
        assert(prefix.drop_last() =~= items@.subrange(0, i as int));
        assert(prefix.last() == items@[i as int]);
        match decode_message(&items[i]) {
            Some(m) => {
                let ghost before = out@;
                out.push(m);
                assert(messages_view(out@) =~= messages_view(before).push(out@.last()@));
            },
            None => {
                assert(messages_of(prefix) is None);
                proof {
                    lemma_messages_of_prefix_fails(items@, i + 1, items@.len() as int);
                    assert(items@.subrange(0, items@.len() as int) =~= items@);
                }
                return None;
            },
        }
        i = i + 1;
    }
    assert(items@.subrange(0, items@.len() as int) =~= items@);
    Some(out)
}

/// The opening message of a session: how often it wants a heartbeat.
#[derive(Clone, Copy, Debug, PartialEq, Eq, Structural)]
pub struct Hello {
    pub heartbeat_interval: u64,
}

/// The event that completes a handshake.
#[derive(Debug)]
pub struct Ready<'a> {
    pub user: User<'a>,
    pub session_id: &'a str,
}

/// A user started typing.
#[derive(Debug)]
pub struct TypingStart<'a> {
    pub channel_id: Id,
    pub guild_id: Option<Id>,
    pub user_id: Id,
    pub timestamp: i32,
    pub member: Option<Member<'a>>,
}

/// The application event that a dispatch carries.
#[derive(Debug)]
pub enum DispatchPayload<'a> {
    MessageCreate(Message<'a>),
    Ready(Ready<'a>),
    TypingStart(TypingStart<'a>),
}

/// An application event with its sequence number.
#[derive(Debug)]
pub struct Dispatch<'a> {
    pub seq: Sequence,
    pub payload: DispatchPayload<'a>,
}

/// A message of the streaming protocol.
#[derive(Debug)]
pub enum Event<'a> {
    Dispatch(Dispatch<'a>),
    Reconnect,
    InvalidSession(bool),
    Hello(Hello),
    HeartbeatAck,
}

/// Why a frame did not decode. None of these ends a session.
#[derive(Debug)]
pub enum DecodeError {
    /// The frame is not JSON.
    NotJson,
    /// A member is missing or has the wrong shape.
    Malformed,
    /// The operation code is none that the client receives.
    UnknownOp(u8),
    /// A dispatch names an event type that the client does not know.
    UnknownEventType(String),
}

pub struct ReadyView {
    pub user: UserView,
    pub session_id: Seq<char>,
}

pub struct TypingStartView {
    pub channel_id: u64,
    pub guild_id: Option<u64>,
    pub user_id: u64,
    pub timestamp: i32,
    pub member: Option<MemberView>,
}

pub enum PayloadView {
    MessageCreate(MessageView),
    Ready(ReadyView),
    TypingStart(TypingStartView),
}

pub enum EventView {
    Dispatch { seq: usize, payload: PayloadView },
    Reconnect,
    InvalidSession(bool),
    Hello(u64),
    HeartbeatAck,
}

pub enum DecodeFailure {
    NotJson,
    Malformed,
    UnknownOp(u8),
    UnknownEventType(Seq<char>),
}

impl<'a> View for Ready<'a> {
    type V = ReadyView;

    open spec fn view(&self) -> ReadyView {
        ReadyView { user: self.user@, session_id: self.session_id@ }
    }
}

impl<'a> View for TypingStart<'a> {
    type V = TypingStartView;

    open spec fn view(&self) -> TypingStartView {
        TypingStartView {
            channel_id: self.channel_id.0,
            guild_id: opt_id_view(self.guild_id),
            user_id: self.user_id.0,
            timestamp: self.timestamp,
            member: match self.member {
                Some(m) => Some(m@),
                None => None,
            },
        }
    }
}

impl<'a> View for DispatchPayload<'a> {
    type V = PayloadView;

    open spec fn view(&self) -> PayloadView {
        match self {
            DispatchPayload::MessageCreate(m) => PayloadView::MessageCreate(m@),
            DispatchPayload::Ready(r) => PayloadView::Ready(r@),
            DispatchPayload::TypingStart(t) => PayloadView::TypingStart(t@),
        }
    }
}

impl<'a> View for Event<'a> {
    type V = EventView;

    open spec fn view(&self) -> EventView {
        match self {
            Event::Dispatch(d) => EventView::Dispatch { seq: d.seq.0, payload: d.payload@ },
            Event::Reconnect => EventView::Reconnect,
            Event::InvalidSession(b) => EventView::InvalidSession(*b),
            Event::Hello(h) => EventView::Hello(h.heartbeat_interval),
            Event::HeartbeatAck => EventView::HeartbeatAck,
        }
    }
}

impl View for DecodeError {
    type V = DecodeFailure;

    open spec fn view(&self) -> DecodeFailure {
        match self {
            DecodeError::NotJson => DecodeFailure::NotJson,
            DecodeError::Malformed => DecodeFailure::Malformed,
            DecodeError::UnknownOp(op) => DecodeFailure::UnknownOp(*op),
            DecodeError::UnknownEventType(t) => DecodeFailure::UnknownEventType(t@),
        }
    }
}

pub open spec fn event_result_view<'a>(r: Result<Event<'a>, DecodeError>) -> Result<
    EventView,
    DecodeFailure,
> {
    match r {
        Ok(e) => Ok(e@),
        Err(e) => Err(e@),
    }
}

/// What a ready object decodes to.
pub open spec fn ready_of(j: Json) -> Option<ReadyView> {
    match j {
        Json::Object(fields) => {
            let user = match member(fields@, "user"@) {
                Some(u) => user_of(u),
                None => None,
            };
            let session_id = text_of(member(fields@, "session_id"@));
            if user is Some && session_id is Some {
                Some(ReadyView { user: user->0, session_id: session_id->0 })
            } else {
                None
            }
        },
        _ => None,
    }
}

/// Decodes a ready object.
pub fn decode_ready<'a>(j: &'a Json) -> (r: Option<Ready<'a>>)
    ensures
        match r {
            Some(v) => ready_of(*j) == Some(v@),
            None => ready_of(*j) is None,
        },
{
    match j {
        Json::Object(fields) => {
            let user = match get_member(fields, "user") {
                Some(u) => decode_user(u),
                None => None,
            };
            let session_id = str_member(fields, "session_id");
            match (user, session_id) {
                (Some(user), Some(session_id)) => Some(Ready { user, session_id }),
                _ => None,
            }
        },
        _ => None,
    }
}

/// What a typing-start object decodes to.
pub open spec fn typing_start_of(j: Json) -> Option<TypingStartView> {
    match j {
        Json::Object(fields) => {
            let channel_id = id_of(member(fields@, "channel_id"@));
            let guild_id = nullable(member(fields@, "guild_id"@), |x: Option<Json>| id_of(x));
            let user_id = id_of(member(fields@, "user_id"@));
            let timestamp = i32_of(member(fields@, "timestamp"@));
            let member = nullable(
                member(fields@, "member"@),
                |x: Option<Json>|
                    match x {
                        Some(v) => member_of(v),
                        None => None,
                    },
            );
            if channel_id is Some && guild_id is Some && user_id is Some && timestamp is Some
                && member is Some {
                Some(
                    TypingStartView {
                        channel_id: channel_id->0,
                        guild_id: guild_id->0,
                        user_id: user_id->0,
                        timestamp: timestamp->0,
                        member: member->0,
                    },
                )
            } else {
                None
            }
        },
        _ => None,
    }
}

fn i32_in(j: Option<&Json>) -> (r: Option<i32>)
    ensures
        r == i32_of(
            match j {
                Some(v) => Some(*v),
                None => None,
            },
        ),
{
    match j {
        Some(Json::Number(JsonNumber::Unsigned(n))) => if *n <= 0x7fff_ffff {
            Some(*n as i32)
        } else {
            None
        },
        Some(Json::Number(JsonNumber::Signed(n))) => if *n >= -0x8000_0000 {
            Some(*n as i32)
        } else {
            None
        },
        _ => None,
    }
}

/// Decodes a typing-start object.
pub fn decode_typing_start<'a>(j: &'a Json) -> (r: Option<TypingStart<'a>>)
    ensures
        match r {
            Some(v) => typing_start_of(*j) == Some(v@),
            None => typing_start_of(*j) is None,
        },
{
    match j {
        Json::Object(fields) => {
            let channel_id = id_member(fields, "channel_id");
            let guild_id = match get_member(fields, "guild_id") {
                None => Some(None),
                Some(Json::Null) => Some(None),
                Some(v) => match id_in(Some(v)) {
                    Some(id) => Some(Some(id)),
                    None => None,
                },
            };
            let user_id = id_member(fields, "user_id");
            let timestamp = i32_in(get_member(fields, "timestamp"));
            let member = match get_member(fields, "member") {
                None => Some(None),
                Some(Json::Null) => Some(None),
                Some(v) => match decode_member(v) {
                    Some(m) => Some(Some(m)),
                    None => None,
                },
            };
            match (channel_id, guild_id, user_id, timestamp, member) {
                (Some(channel_id), Some(guild_id), Some(user_id), Some(timestamp), Some(member)) => {
                    Some(TypingStart { channel_id, guild_id, user_id, timestamp, member })
                },
                _ => None,
            }
        },
        _ => None,
    }
}

/// What the body of a hello message decodes to.
pub open spec fn hello_of(j: Json) -> Option<u64> {
    match j {
        Json::Object(fields) => unsigned_of(member(fields@, "heartbeat_interval"@), u64::MAX),
        _ => None,
    }
}

fn decode_hello(j: &Json) -> (r: Option<Hello>)
    ensures
        match r {
            Some(h) => hello_of(*j) == Some(h.heartbeat_interval),
            None => hello_of(*j) is None,
        },
{
    match j {
        Json::Object(fields) => match get_member(fields, "heartbeat_interval") {
            Some(Json::Number(JsonNumber::Unsigned(n))) => Some(Hello { heartbeat_interval: *n }),
            _ => None,
        },
        _ => None,
    }
}

pub const OP_DISPATCH: u8 = 0;
pub const OP_RECONNECT: u8 = 7;
pub const OP_INVALID_SESSION: u8 = 9;
pub const OP_HELLO: u8 = 10;
pub const OP_HEARTBEAT_ACK: u8 = 11;

/// The payload that a dispatch of event type `t` carries in `d`.
pub open spec fn payload_of(t: Seq<char>, d: Json) -> Result<PayloadView, DecodeFailure> {
    if t == "MESSAGE_CREATE"@ {
        match message_of(d) {
            Some(m) => Ok(PayloadView::MessageCreate(m)),
            None => Err(DecodeFailure::Malformed),
        }
    } else if t == "READY"@ {
        match ready_of(d) {
            Some(r) => Ok(PayloadView::Ready(r)),
            None => Err(DecodeFailure::Malformed),
        }
    } else if t == "TYPING_START"@ {
        match typing_start_of(d) {
            Some(v) => Ok(PayloadView::TypingStart(v)),
            None => Err(DecodeFailure::Malformed),
        }
    } else {
        Err(DecodeFailure::UnknownEventType(t))
    }
}

/// The message that an envelope with operation code `op`, event type `t`, sequence `s` and
/// body `d` carries.
pub open spec fn envelope_event(
    op: u8,
    t: Option<Seq<char>>,
    s: Option<usize>,
    d: Json,
) -> Result<EventView, DecodeFailure> {
    if op == OP_RECONNECT {
        if d is Null {
            Ok(EventView::Reconnect)
        } else {
            Err(DecodeFailure::Malformed)
        }
    } else if op == OP_INVALID_SESSION {
        match d {
            Json::Bool(b) => Ok(EventView::InvalidSession(b)),
            _ => Err(DecodeFailure::Malformed),
        }
    } else if op == OP_HELLO {
        match hello_of(d) {
            Some(h) => Ok(EventView::Hello(h)),
            None => Err(DecodeFailure::Malformed),
        }
    } else if op == OP_HEARTBEAT_ACK {
        if d is Null {
            Ok(EventView::HeartbeatAck)
        } else {
            Err(DecodeFailure::Malformed)
        }
    } else if op == OP_DISPATCH {
        match (t, s) {
            (Some(t), Some(s)) => match payload_of(t, d) {
                Ok(p) => Ok(EventView::Dispatch { seq: s, payload: p }),
                Err(e) => Err(e),
            },
            _ => Err(DecodeFailure::Malformed),
        }
    } else {
        Err(DecodeFailure::UnknownOp(op))
    }
}

/// What a frame's JSON document decodes to. The envelope is an object with an operation code
/// `op` (0 to 255), a body `d` (possibly `null`), and optionally an event type `t` and a
/// sequence number `s`; other members are ignored.
pub open spec fn event_of(j: Json) -> Result<EventView, DecodeFailure> {
    match j {
        Json::Object(fields) => {
            let op = unsigned_of(member(fields@, "op"@), 255);
            let t = nullable(member(fields@, "t"@), |x: Option<Json>| text_of(x));
            let s = nullable(member(fields@, "s"@), |x: Option<Json>| unsigned_of(x, usize::MAX as u64));
            let d = member(fields@, "d"@);
            if op is Some && t is Some && s is Some && d is Some {
                envelope_event(op->0 as u8, t->0, match s->0 {
                    Some(n) => Some(n as usize),
                    None => None,
                }, d->0)
            } else {
                Err(DecodeFailure::Malformed)
            }
        },
        _ => Err(DecodeFailure::Malformed),
    }
}

fn decode_payload<'a>(t: &str, d: &'a Json) -> (r: Result<DispatchPayload<'a>, DecodeError>)
    ensures
        match r {
            Ok(p) => payload_of(t@, *d) == Ok::<PayloadView, DecodeFailure>(p@),
            Err(e) => payload_of(t@, *d) == Err::<PayloadView, DecodeFailure>(e@),
        },
{
    if str_equal(t, "MESSAGE_CREATE") {
        match decode_message(d) {
            Some(m) => Ok(DispatchPayload::MessageCreate(m)),
            None => Err(DecodeError::Malformed),
        }
    } else if str_equal(t, "READY") {
        match decode_ready(d) {
            Some(r) => Ok(DispatchPayload::Ready(r)),
            None => Err(DecodeError::Malformed),
        }
    } else if str_equal(t, "TYPING_START") {
        match decode_typing_start(d) {
            Some(v) => Ok(DispatchPayload::TypingStart(v)),
            None => Err(DecodeError::Malformed),
        }
    } else {
        Err(DecodeError::UnknownEventType(t.to_owned()))
    }
}

/// Decodes the JSON document of a frame into a protocol message.
pub fn decode_event<'a>(j: &'a Json) -> (r: Result<Event<'a>, DecodeError>)
    ensures
        event_result_view(r) == event_of(*j),
{
    let fields = match j {
        Json::Object(fields) => fields,
        _ => return Err(DecodeError::Malformed),
    };
    let op: u8 = match get_member(fields, "op") {
        Some(Json::Number(JsonNumber::Unsigned(n))) => if *n <= 255 {
            *n as u8
        } else {
            return Err(DecodeError::Malformed);
        },
        _ => return Err(DecodeError::Malformed),
    };
    let t: Option<&'a str> = match get_member(fields, "t") {
        None => None,
        Some(Json::Null) => None,
        Some(Json::Str(s)) => Some(s.as_str()),
        Some(_) => return Err(DecodeError::Malformed),
    };
    let s: Option<Sequence> = match get_member(fields, "s") {
        None => None,
        Some(Json::Null) => None,
        Some(Json::Number(JsonNumber::Unsigned(n))) => if *n <= usize::MAX as u64 {
            Some(Sequence(*n as usize))
        } else {
            return Err(DecodeError::Malformed);
        },
        Some(_) => return Err(DecodeError::Malformed),
    };
    let d: &'a Json = match get_member(fields, "d") {
        Some(d) => d,
        None => return Err(DecodeError::Malformed),
    };
    if op == OP_RECONNECT {
        match d {
            Json::Null => Ok(Event::Reconnect),
            _ => Err(DecodeError::Malformed),
        }
    } else if op == OP_INVALID_SESSION {
        match d {
            Json::Bool(b) => Ok(Event::InvalidSession(*b)),
            _ => Err(DecodeError::Malformed),
        }
    } else if op == OP_HELLO {
        match decode_hello(d) {
            Some(h) => Ok(Event::Hello(h)),
            None => Err(DecodeError::Malformed),
        }
    } else if op == OP_HEARTBEAT_ACK {
        match d {
            Json::Null => Ok(Event::HeartbeatAck),
            _ => Err(DecodeError::Malformed),
        }
    } else if op == OP_DISPATCH {
        match (t, s) {
            (Some(t), Some(s)) => match decode_payload(t, d) {
                Ok(payload) => Ok(Event::Dispatch(Dispatch { seq: s, payload })),
                Err(e) => Err(e),
            },
            _ => Err(DecodeError::Malformed),
        }
    } else {
        Err(DecodeError::UnknownOp(op))
    }
}

/// Parses a text frame into its JSON document; `decode_event` then reads the message from it.
pub fn parse_frame(text: &str) -> (r: Result<Json, DecodeError>)
    ensures
        match r {
            Ok(j) => json_of(text@) == Some(j),
            Err(e) => json_of(text@) is None && e is NotJson,
        },
{
    match parse_json(text) {
        Some(j) => Ok(j),
        None => Err(DecodeError::NotJson),
    }
}

} // verus!
