use crate::json::{json_text_of, to_json_text, Json, JsonNumber};
use crate::types::{Intents, Sequence, Status, TokenBuf};
use vstd::prelude::*;

verus! {

pub open spec fn str_json(j: Json, s: Seq<char>) -> bool {
    j matches Json::Str(x) && x@ == s
}

pub open spec fn unsigned_json(j: Json, n: u64) -> bool {
    j == Json::Number(JsonNumber::Unsigned(n))
}

/// The JSON of a 32-bit signed integer.
pub open spec fn i32_json(j: Json, n: i32) -> bool {
    if n >= 0 {
        unsigned_json(j, n as u64)
    } else {
        j == Json::Number(JsonNumber::Signed(n as i64))
    }
}

/// An object whose members carry exactly these names, in this order.
pub open spec fn object_keys(j: Json, keys: Seq<Seq<char>>) -> bool {
    &&& j is Object
    &&& j->Object_0@.len() == keys.len()
    &&& forall|i: int| 0 <= i < keys.len() ==> (#[trigger] j->Object_0@[i]).0@ == keys[i]
}

/// The value of the `i`th member of an object.
pub open spec fn value_at(j: Json, i: int) -> Json {
    j->Object_0@[i].1
}

/// A message that the client sends, with its operation code.
pub trait Command {
    /// The operation code of the envelope.
    spec fn op_spec() -> u8;

    /// Whether `j` is this command's body.
    spec fn body_is(&self, j: Json) -> bool;

    fn op() -> (r: u8)
        ensures
            r == Self::op_spec(),
    ;

    fn body(&self) -> (j: Json)
        ensures
            self.body_is(j),
    ;
}

/// Writes a command in the envelope `{"op": <code>, "d": <body>}`.
pub struct CommandSerializer<C: Command>(pub C);

/// The envelope of a command.
pub open spec fn envelope_is<C: Command>(j: Json, c: &C) -> bool {
    &&& object_keys(j, seq!["op"@, "d"@])
    &&& unsigned_json(value_at(j, 0), C::op_spec() as u64)
    &&& c.body_is(value_at(j, 1))
}

impl<C: Command> CommandSerializer<C> {
    /// The envelope as a JSON document.
    pub fn to_json(&self) -> (j: Json)
        ensures
            envelope_is(j, &self.0),
    {
        let fields = vec![
            ("op".to_owned(), Json::Number(JsonNumber::Unsigned(C::op() as u64))),
            ("d".to_owned(), self.0.body()),
        ];
        Json::Object(fields)
    }

    /// The envelope as the text of a frame.
    pub fn serialize(&self) -> (r: String)
        ensures
            exists|j: Json| envelope_is(j, &self.0) && r@ == json_text_of(j),
    {
        let j = self.to_json();
        to_json_text(&j)
    }
}

pub const OP_HEARTBEAT: u8 = 1;
pub const OP_IDENTIFY: u8 = 2;
pub const OP_PRESENCE_UPDATE: u8 = 3;
pub const OP_RESUME: u8 = 6;

/// A liveness ping carrying the last sequence number seen, if any.
#[derive(Clone, Copy, Debug)]
pub struct Heartbeat(pub Option<Sequence>);

impl Command for Heartbeat {
    open spec fn op_spec() -> u8 {
        OP_HEARTBEAT
    }

    open spec fn body_is(&self, j: Json) -> bool {
        match self.0 {
            Some(s) => unsigned_json(j, s.0 as u64),
            None => j is Null,
        }
    }

    fn op() -> (r: u8) {
        OP_HEARTBEAT
    }

    fn body(&self) -> (j: Json) {
        match self.0 {
            Some(s) => Json::Number(JsonNumber::Unsigned(s.0 as u64)),
            None => Json::Null,
        }
    }
}

/// Static metadata about the connecting client.
#[derive(Clone, Debug)]
pub struct ConnectionProperties {
    pub os: String,
    pub browser: String,
    pub device: String,
}

pub open spec fn properties_is(j: Json, p: ConnectionProperties) -> bool {
    &&& object_keys(j, seq!["$os"@, "$browser"@, "$device"@])
    &&& str_json(value_at(j, 0), p.os@)
    &&& str_json(value_at(j, 1), p.browser@)
    &&& str_json(value_at(j, 2), p.device@)
}

impl ConnectionProperties {
    pub fn to_json(&self) -> (j: Json)
        ensures
            properties_is(j, *self),
    {
        Json::Object(
            vec![
                ("$os".to_owned(), Json::Str(self.os.clone())),
                ("$browser".to_owned(), Json::Str(self.browser.clone())),
                ("$device".to_owned(), Json::Str(self.device.clone())),
            ],
        )
    }
}

/// Opens a new session.
#[derive(Clone, Debug)]
pub struct Identify {
    pub token: TokenBuf,
    pub properties: ConnectionProperties,
    pub intents: Intents,
    pub compress: Option<bool>,
    pub large_threshold: Option<u8>,
}

impl Command for Identify {
    open spec fn op_spec() -> u8 {
        OP_IDENTIFY
    }

    open spec fn body_is(&self, j: Json) -> bool {
        &&& object_keys(
            j,
            seq!["token"@, "properties"@, "intents"@, "compress"@, "large_threshold"@],
        )
        &&& str_json(value_at(j, 0), self.token.0@)
        &&& properties_is(value_at(j, 1), self.properties)
        &&& unsigned_json(value_at(j, 2), self.intents.0 as u64)
        &&& match self.compress {
            Some(b) => value_at(j, 3) == Json::Bool(b),
            None => value_at(j, 3) is Null,
        }
        &&& match self.large_threshold {
            Some(n) => unsigned_json(value_at(j, 4), n as u64),
            None => value_at(j, 4) is Null,
        }
    }

    fn op() -> (r: u8) {
        OP_IDENTIFY
    }

    fn body(&self) -> (j: Json) {
        let compress = match self.compress {
            Some(b) => Json::Bool(b),
            None => Json::Null,
        };
        let large_threshold = match self.large_threshold {
            Some(n) => Json::Number(JsonNumber::Unsigned(n as u64)),
            None => Json::Null,
        };
        Json::Object(
            vec![
                ("token".to_owned(), Json::Str(self.token.0.clone())),
                ("properties".to_owned(), self.properties.to_json()),
                ("intents".to_owned(), Json::Number(JsonNumber::Unsigned(self.intents.0 as u64))),
                ("compress".to_owned(), compress),
                ("large_threshold".to_owned(), large_threshold),
            ],
        )
    }
}

/// An activity list, which this client never builds: the field is private and nothing in the
/// crate constructs it.
#[derive(Clone, Copy, Debug)]
pub struct Never(());

/// Changes the presence of the client.
#[derive(Clone, Copy, Debug)]
pub struct UpdateStatus {
    pub since: Option<i32>,
    pub status: Status,
    pub afk: bool,
    pub activities: Option<Never>,
}

pub open spec fn status_name(s: Status) -> Seq<char> {
    match s {
        Status::Online => "online"@,
        Status::Dnd => "dnd"@,
        Status::Idle => "idle"@,
        Status::Invisible => "invisible"@,
        Status::Offline => "offline"@,
    }
}

impl Command for UpdateStatus {
    open spec fn op_spec() -> u8 {
        OP_PRESENCE_UPDATE
    }

    open spec fn body_is(&self, j: Json) -> bool {
        &&& object_keys(j, seq!["since"@, "status"@, "afk"@, "activities"@])
        &&& match self.since {
            Some(n) => i32_json(value_at(j, 0), n),
            None => value_at(j, 0) is Null,
        }
        &&& str_json(value_at(j, 1), status_name(self.status))
        &&& value_at(j, 2) == Json::Bool(self.afk)
        &&& value_at(j, 3) is Null
    }

    fn op() -> (r: u8) {
        OP_PRESENCE_UPDATE
    }

    fn body(&self) -> (j: Json) {
        let since = match self.since {
            Some(n) => if n >= 0 {
                Json::Number(JsonNumber::Unsigned(n as u64))
            } else {
                Json::Number(JsonNumber::Signed(n as i64))
            },
            None => Json::Null,
        };
        Json::Object(
            vec![
                ("since".to_owned(), since),
                ("status".to_owned(), Json::Str(self.status.name().to_owned())),
                ("afk".to_owned(), Json::Bool(self.afk)),
                ("activities".to_owned(), Json::Null),
            ],
        )
    }
}

/// Re-attaches a new transport to an existing session.
#[derive(Clone, Debug)]
pub struct Resume {
    pub token: TokenBuf,
    pub session_id: String,
    pub seq: Sequence,
}

impl Command for Resume {
    open spec fn op_spec() -> u8 {
        OP_RESUME
    }

    open spec fn body_is(&self, j: Json) -> bool {
        &&& object_keys(j, seq!["token"@, "session_id"@, "seq"@])
        &&& str_json(value_at(j, 0), self.token.0@)
        &&& str_json(value_at(j, 1), self.session_id@)
        &&& unsigned_json(value_at(j, 2), self.seq.0 as u64)
    }

    fn op() -> (r: u8) {
        OP_RESUME
    }

    fn body(&self) -> (j: Json) {
        Json::Object(
            vec![
                ("token".to_owned(), Json::Str(self.token.0.clone())),
                ("session_id".to_owned(), Json::Str(self.session_id.clone())),
                ("seq".to_owned(), Json::Number(JsonNumber::Unsigned(self.seq.0 as u64))),
            ],
        )
    }
}

} // verus!
