use crate::command::{ConnectionProperties, Heartbeat, Identify, Resume};
use crate::event::{DecodeError, Dispatch, DispatchPayload, Event, Hello};
use crate::types::{Intents, Sequence, TokenBuf};
use vstd::prelude::*;

verus! {

/// The state of one session: the last sequence number, the heartbeat period, the session's
/// identity, and whether the last heartbeat was acknowledged.
#[derive(Debug)]
pub struct SessionState {
    pub seq: Sequence,
    pub heartbeat_interval: u64,
    pub session_id: String,
    pub heartbeat_acked: bool,
}

/// The heartbeat supervisor: the session state, the token that a resume presents, whether a
/// close of the transport has been asked for and its end not yet seen, and whether a resume was
/// sent that the service has not yet answered with an event.
#[derive(Debug)]
pub struct Session {
    pub state: SessionState,
    pub token: TokenBuf,
    pub closing: bool,
    pub resume_pending: bool,
}

pub struct SessionView {
    pub seq: usize,
    pub heartbeat_interval: u64,
    pub session_id: Seq<char>,
    pub heartbeat_acked: bool,
    pub closing: bool,
    pub resume_pending: bool,
    pub token: Seq<char>,
}

impl View for Session {
    type V = SessionView;

    open spec fn view(&self) -> SessionView {
        SessionView {
            seq: self.state.seq.0,
            heartbeat_interval: self.state.heartbeat_interval,
            session_id: self.state.session_id@,
            heartbeat_acked: self.state.heartbeat_acked,
            closing: self.closing,
            resume_pending: self.resume_pending,
            token: self.token.0@,
        }
    }
}

/// What the transport delivered.
#[derive(Debug)]
pub enum Incoming<'a> {
    /// A text frame, decoded.
    Frame(Result<Event<'a>, DecodeError>),
    /// A frame that is not text (binary, ping, pong, close).
    OtherFrame,
    /// The transport ended: closed by the peer, or failed.
    EndOfStream,
}

/// Whichever of the two waits of the loop resolved first.
#[derive(Debug)]
pub enum LoopEvent<'a> {
    /// The heartbeat timer fired.
    Timer,
    Received(Incoming<'a>),
}

/// A break in the numbering of dispatches.
#[derive(Clone, Copy, Debug, PartialEq, Eq, Structural)]
pub struct SequenceGap {
    pub previous: Sequence,
    pub received: Sequence,
}

/// What the loop must do after a step.
#[derive(Debug)]
pub enum Action<'a> {
    Nothing,
    /// Send the heartbeat and arm the timer again.
    SendHeartbeat(Heartbeat),
    /// Hand the payload to the dispatch handler; where `gap` is set, warn of the missed events.
    Deliver { payload: DispatchPayload<'a>, gap: Option<SequenceGap> },
    /// Close the transport; its end of stream then brings a reconnect.
    Close,
    /// Open a new transport, send the resume command on it, and arm the timer again.
    Reconnect(Resume),
    /// Log a frame that did not decode.
    LogDecodeError(DecodeError),
    /// Log that the service declared the session invalid.
    LogInvalidSession(bool),
    /// The service rejected the resume: the session's identity is gone, and a new connection
    /// with a fresh handshake is needed.
    StartOver,
}

/// The shape of a loop event, as far as the state machine reads it.
pub enum Input {
    Timer,
    Dispatch(usize),
    HeartbeatAck,
    ReconnectRequest,
    InvalidSession(bool),
    Hello,
    Undecodable,
    OtherFrame,
    EndOfStream,
}

/// The kind of an action.
pub enum Output {
    Nothing,
    SendHeartbeat(usize),
    Deliver { gap: bool },
    Close,
    Reconnect,
    LogDecodeError,
    LogInvalidSession,
    StartOver,
}

pub open spec fn input_of<'a>(ev: &LoopEvent<'a>) -> Input {
    match ev {
        LoopEvent::Timer => Input::Timer,
        LoopEvent::Received(Incoming::Frame(Ok(Event::Dispatch(d)))) => Input::Dispatch(d.seq.0),
        LoopEvent::Received(Incoming::Frame(Ok(Event::HeartbeatAck))) => Input::HeartbeatAck,
        LoopEvent::Received(Incoming::Frame(Ok(Event::Reconnect))) => Input::ReconnectRequest,
        LoopEvent::Received(Incoming::Frame(Ok(Event::InvalidSession(b)))) => Input::InvalidSession(
            *b,
        ),
        LoopEvent::Received(Incoming::Frame(Ok(Event::Hello(_)))) => Input::Hello,
        LoopEvent::Received(Incoming::Frame(Err(_))) => Input::Undecodable,
        LoopEvent::Received(Incoming::OtherFrame) => Input::OtherFrame,
        LoopEvent::Received(Incoming::EndOfStream) => Input::EndOfStream,
    }
}

pub open spec fn output_of<'a>(a: &Action<'a>) -> Output {
    match a {
        Action::Nothing => Output::Nothing,
        Action::SendHeartbeat(h) => Output::SendHeartbeat(
            match h.0 {
                Some(s) => s.0,
                None => 0,
            },
        ),
        Action::Deliver { gap, .. } => Output::Deliver { gap: gap is Some },
        Action::Close => Output::Close,
        Action::Reconnect(_) => Output::Reconnect,
        Action::LogDecodeError(_) => Output::LogDecodeError,
        Action::LogInvalidSession(_) => Output::LogInvalidSession,
        Action::StartOver => Output::StartOver,
    }
}

/// The session after one loop event.
pub open spec fn next(s: SessionView, i: Input) -> SessionView {
    match i {
        Input::Timer => if s.closing {
            s
        } else if !s.heartbeat_acked {
            SessionView { closing: true, ..s }
        } else {
            SessionView { heartbeat_acked: false, ..s }
        },
        Input::Dispatch(n) => SessionView { seq: n, resume_pending: false, ..s },
        Input::HeartbeatAck => SessionView { heartbeat_acked: true, resume_pending: false, ..s },
        Input::ReconnectRequest => SessionView { closing: true, ..s },
        Input::EndOfStream => SessionView {
            heartbeat_acked: true,
            closing: false,
            resume_pending: true,
            ..s
        },
        _ => s,
    }
}

/// What the loop does on one loop event.
pub open spec fn output(s: SessionView, i: Input) -> Output {
    match i {
        Input::Timer => if s.closing {
            Output::Nothing
        } else if !s.heartbeat_acked {
            Output::Close
        } else {
            Output::SendHeartbeat(s.seq)
        },
        Input::Dispatch(n) => Output::Deliver { gap: n != s.seq + 1 },
        Input::HeartbeatAck => Output::Nothing,
        Input::ReconnectRequest => if s.closing {
            Output::Nothing
        } else {
            Output::Close
        },
        Input::InvalidSession(resumable) => if s.resume_pending && !resumable {
            Output::StartOver
        } else {
            Output::LogInvalidSession
        },
        Input::Hello => Output::Nothing,
        Input::Undecodable => Output::LogDecodeError,
        Input::OtherFrame => Output::Nothing,
        Input::EndOfStream => Output::Reconnect,
    }
}

impl Session {
    /// Handles one loop event: updates the session and says what the loop must do.
    pub fn step<'a>(&mut self, ev: LoopEvent<'a>) -> (r: Action<'a>)
        ensures
            final(self)@ == next(old(self)@, input_of(&ev)),
            output_of(&r) == output(old(self)@, input_of(&ev)),
            r matches Action::SendHeartbeat(h) ==> h.0 == Some(Sequence(old(self)@.seq)),
            ev matches LoopEvent::Received(Incoming::Frame(Ok(Event::Dispatch(d)))) ==> (
            r matches Action::Deliver { payload, gap } && payload@ == d.payload@ && (gap
                matches Some(g) ==> g.previous.0 == old(self)@.seq && g.received == d.seq)),
            r matches Action::Reconnect(c) ==> {
                &&& c.token.0@ == old(self)@.token
                &&& c.session_id@ == old(self)@.session_id
                &&& c.seq.0 == old(self)@.seq
            },
            ev matches LoopEvent::Received(Incoming::Frame(Err(e))) ==> (r matches Action::LogDecodeError(
                e2,
            ) && e2@ == e@),
            r matches Action::LogInvalidSession(b) ==> input_of(&ev) == Input::InvalidSession(b),
    {
        match ev {
            LoopEvent::Timer => {
                if self.closing {
                    Action::Nothing
                } else if !self.state.heartbeat_acked {
                    self.closing = true;
                    Action::Close
                } else {
                    self.state.heartbeat_acked = false;
                    Action::SendHeartbeat(Heartbeat(Some(self.state.seq)))
                }
            },
            LoopEvent::Received(Incoming::Frame(Ok(Event::Dispatch(d)))) => {
                let previous = self.state.seq;
                self.resume_pending = false;
                let in_order = previous.0 < usize::MAX && previous.0 + 1 == d.seq.0;
                self.state.seq = d.seq;
                let gap = if in_order {
                    None
                } else {
                    Some(SequenceGap { previous, received: d.seq })
                };
                Action::Deliver { payload: d.payload, gap }
            },
            LoopEvent::Received(Incoming::Frame(Ok(Event::HeartbeatAck))) => {
                self.state.heartbeat_acked = true;
                self.resume_pending = false;
                Action::Nothing
            },
            LoopEvent::Received(Incoming::Frame(Ok(Event::Reconnect))) => {
                if self.closing {
                    Action::Nothing
                } else {
                    self.closing = true;
                    Action::Close
                }
            },
            LoopEvent::Received(Incoming::Frame(Ok(Event::InvalidSession(resumable)))) => {
                if self.resume_pending && !resumable {
                    Action::StartOver
                } else {
                    Action::LogInvalidSession(resumable)
                }
            },
            LoopEvent::Received(Incoming::Frame(Ok(Event::Hello(_)))) => Action::Nothing,
            LoopEvent::Received(Incoming::Frame(Err(e))) => Action::LogDecodeError(e),
            LoopEvent::Received(Incoming::OtherFrame) => Action::Nothing,
            LoopEvent::Received(Incoming::EndOfStream) => {
                self.state.heartbeat_acked = true;
                self.closing = false;
                self.resume_pending = true;
                Action::Reconnect(self.resume_command())
            },
        }
    }

    /// The command that re-attaches a new transport to this session.
    pub fn resume_command(&self) -> (r: Resume)
        ensures
            r.token.0@ == self.token.0@,
            r.session_id@ == self.state.session_id@,
            r.seq == self.state.seq,
    {
        Resume {
            token: TokenBuf(self.token.0.clone()),
            session_id: self.state.session_id.clone(),
            seq: self.state.seq,
        }
    }
}

/// Why a handshake failed; each ends the connection attempt.
#[derive(Debug)]
pub enum ProtocolError {
    /// The transport ended before the handshake did.
    EndOfStream,
    /// A frame that is not text came.
    UnexpectedFrame,
    /// A text frame did not decode.
    Undecodable(DecodeError),
    /// The first message was not a hello.
    ExpectedHello,
    /// The second message was not a dispatch of the ready event.
    ExpectedReady,
}

/// The first step of a handshake: the command that opens the session.
pub fn identify(token: &TokenBuf, intents: Intents) -> (r: Identify)
    ensures
        r.token.0@ == token.0@,
        r.properties.os@ == "windows"@,
        r.properties.browser@ == "tungstenite"@,
        r.properties.device@ == "rust"@,
        r.intents == intents,
        r.compress is None,
        r.large_threshold is None,
{
    Identify {
        token: TokenBuf(token.0.clone()),
        properties: ConnectionProperties {
            os: "windows".to_owned(),
            browser: "tungstenite".to_owned(),
            device: "rust".to_owned(),
        },
        intents,
        compress: None,
        large_threshold: None,
    }
}

/// The error that a message other than the one expected brings, where that message is not an
/// event (`None` where it is).
pub open spec fn transport_failure<'a>(incoming: &Incoming<'a>, r: ProtocolError) -> bool {
    match incoming {
        Incoming::EndOfStream => r is EndOfStream,
        Incoming::OtherFrame => r is UnexpectedFrame,
        Incoming::Frame(Err(e)) => r matches ProtocolError::Undecodable(e2) && e2@ == e@,
        Incoming::Frame(Ok(_)) => true,
    }
}

/// The second step of a handshake: the first message must be a hello, whose heartbeat period
/// is returned.
pub fn expect_hello<'a>(incoming: Incoming<'a>) -> (r: Result<u64, ProtocolError>)
    ensures
        match incoming {
            Incoming::Frame(Ok(Event::Hello(h))) => r matches Ok(n) && n == h.heartbeat_interval,
            Incoming::Frame(Ok(_)) => r matches Err(ProtocolError::ExpectedHello),
            _ => r matches Err(e) && transport_failure(&incoming, e),
        },
{
    match incoming {
        Incoming::Frame(Ok(Event::Hello(h))) => Ok(h.heartbeat_interval),
        Incoming::Frame(Ok(_)) => Err(ProtocolError::ExpectedHello),
        Incoming::Frame(Err(e)) => Err(ProtocolError::Undecodable(e)),
        Incoming::OtherFrame => Err(ProtocolError::UnexpectedFrame),
        Incoming::EndOfStream => Err(ProtocolError::EndOfStream),
    }
}

/// The last step of a handshake: the second message must dispatch the ready event. It yields
/// the session, acknowledged and open, and the ready payload for the dispatch handler.
pub fn expect_ready<'a>(token: TokenBuf, heartbeat_interval: u64, incoming: Incoming<'a>) -> (r:
    Result<(Session, DispatchPayload<'a>), ProtocolError>)
    ensures
        match incoming {
            Incoming::Frame(Ok(Event::Dispatch(d))) => match d.payload {
                DispatchPayload::Ready(ready) => r matches Ok((s, p)) && s@ == (SessionView {
                    seq: d.seq.0,
                    heartbeat_interval,
                    session_id: ready.session_id@,
                    heartbeat_acked: true,
                    closing: false,
                    resume_pending: false,
                    token: token.0@,
                }) && p@ == d.payload@,
                _ => r matches Err(ProtocolError::ExpectedReady),
            },
            Incoming::Frame(Ok(_)) => r matches Err(ProtocolError::ExpectedReady),
            _ => r matches Err(e) && transport_failure(&incoming, e),
        },
{
    match incoming {
        Incoming::Frame(Ok(Event::Dispatch(d))) => {
            let session_id = match &d.payload {
                DispatchPayload::Ready(ready) => ready.session_id.to_owned(),
                _ => return Err(ProtocolError::ExpectedReady),
            };
            let state = SessionState { seq: d.seq, heartbeat_interval, session_id, heartbeat_acked: true };
            Ok((Session { state, token, closing: false, resume_pending: false }, d.payload))
        },
        Incoming::Frame(Ok(_)) => Err(ProtocolError::ExpectedReady),
        Incoming::Frame(Err(e)) => Err(ProtocolError::Undecodable(e)),
        Incoming::OtherFrame => Err(ProtocolError::UnexpectedFrame),
        Incoming::EndOfStream => Err(ProtocolError::EndOfStream),
    }
}

/// The session after a run of loop events.
pub open spec fn run(s: SessionView, inputs: Seq<Input>) -> SessionView
    decreases inputs.len(),
{
    if inputs.len() == 0 {
        s
    } else {
        run(next(s, inputs[0]), inputs.drop_first())
    }
}

/// The kinds of the actions that a run of loop events brings, in order.
pub open spec fn outputs(s: SessionView, inputs: Seq<Input>) -> Seq<Output>
    decreases inputs.len(),
{
    if inputs.len() == 0 {
        Seq::empty()
    } else {
        seq![output(s, inputs[0])] + outputs(next(s, inputs[0]), inputs.drop_first())
    }
}

/// The sequence number of the last dispatch of a run, or `current` where it has none.
pub open spec fn last_dispatched(current: usize, inputs: Seq<Input>) -> usize
    decreases inputs.len(),
{
    if inputs.len() == 0 {
        current
    } else {
        match inputs.last() {
            Input::Dispatch(n) => n,
            _ => last_dispatched(current, inputs.drop_last()),
        }
    }
}

/// How many closes of the transport a list of actions holds.
pub open spec fn count_closes(os: Seq<Output>) -> nat
    decreases os.len(),
{
    if os.len() == 0 {
        0
    } else {
        count_closes(os.drop_first()) + if os[0] is Close {
            1nat
        } else {
            0nat
        }
    }
}

pub proof fn lemma_run_append(s: SessionView, a: Seq<Input>, b: Seq<Input>)
    ensures
        run(s, a + b) == run(run(s, a), b),
        outputs(s, a + b) == outputs(s, a) + outputs(run(s, a), b),
    decreases a.len(),
{
    if a.len() == 0 {
        assert(a + b =~= b);
        assert(outputs(s, a) + outputs(s, b) =~= outputs(s, b));
    } else {
        assert((a + b).drop_first() =~= a.drop_first() + b);
        lemma_run_append(next(s, a[0]), a.drop_first(), b);
        assert(outputs(s, a + b) =~= outputs(s, a) + outputs(run(s, a), b));
    }
}

proof fn lemma_count_closes_append(x: Seq<Output>, y: Seq<Output>)
    ensures
        count_closes(x + y) == count_closes(x) + count_closes(y),
    decreases x.len(),
{
    if x.len() == 0 {
        assert(x + y =~= y);
    } else {
        assert((x + y).drop_first() =~= x.drop_first() + y);
        lemma_count_closes_append(x.drop_first(), y);
    }
}

proof fn lemma_last_dispatched_first(current: usize, i: Input, rest: Seq<Input>)
    ensures
        last_dispatched(current, seq![i] + rest) == last_dispatched(
            match i {
                Input::Dispatch(n) => n,
                _ => current,
            },
            rest,
        ),
    decreases rest.len(),
{
    let all = seq![i] + rest;
    let c2 = match i {
        Input::Dispatch(n) => n,
        _ => current,
    };
    if rest.len() == 0 {
        assert(all.drop_last() =~= Seq::<Input>::empty());
        assert(all.last() == i);
        assert(last_dispatched(current, Seq::<Input>::empty()) == current);
        assert(last_dispatched(c2, rest) == c2);
    } else {
        assert(all.drop_last() =~= seq![i] + rest.drop_last());
        assert(all.last() == rest.last());
        lemma_last_dispatched_first(current, i, rest.drop_last());
    }
}

proof fn lemma_run_first(s: SessionView, i: Input, rest: Seq<Input>)
    ensures
        run(s, seq![i] + rest) == run(next(s, i), rest),
        outputs(s, seq![i] + rest) == seq![output(s, i)] + outputs(next(s, i), rest),
        run(s, seq![i]) == next(s, i),
        outputs(s, seq![i]) == seq![output(s, i)],
{
    assert((seq![i] + rest).drop_first() =~= rest);
    assert((seq![i] + rest)[0] == i);
    assert(seq![i].drop_first() =~= Seq::<Input>::empty());
    assert(run(next(s, i), Seq::<Input>::empty()) == next(s, i));
    assert(outputs(next(s, i), Seq::<Input>::empty()) =~= Seq::<Output>::empty());
    assert(seq![output(s, i)] + Seq::<Output>::empty() =~= seq![output(s, i)]);
}

proof fn lemma_count_closes_first(o: Output, y: Seq<Output>)
    ensures
        count_closes(seq![o] + y) == count_closes(y) + if o is Close {
            1nat
        } else {
            0nat
        },
{
    assert((seq![o] + y).drop_first() =~= y);
    assert((seq![o] + y)[0] == o);
}

/// After any run of loop events, the session's sequence number is that of the last dispatch
/// received, whatever gaps the numbering had; a run without dispatches leaves it alone.
pub proof fn lemma_sequence_follows_dispatches(s: SessionView, inputs: Seq<Input>)
    ensures
        run(s, inputs).seq == last_dispatched(s.seq, inputs),
    decreases inputs.len(),
{
    if inputs.len() > 0 {
        lemma_sequence_follows_dispatches(next(s, inputs[0]), inputs.drop_first());
        assert(inputs =~= seq![inputs[0]] + inputs.drop_first());
        lemma_last_dispatched_first(s.seq, inputs[0], inputs.drop_first());
    }
}

/// No loop event changes the session's identity, token or heartbeat period.
pub proof fn lemma_identity_kept(s: SessionView, inputs: Seq<Input>)
    ensures
        run(s, inputs).session_id == s.session_id,
        run(s, inputs).token == s.token,
        run(s, inputs).heartbeat_interval == s.heartbeat_interval,
    decreases inputs.len(),
{
    if inputs.len() > 0 {
        lemma_identity_kept(next(s, inputs[0]), inputs.drop_first());
    }
}

/// When the transport ends after any run of loop events, the loop reconnects, and the session
/// it resumes holds the identity captured at the handshake and the sequence number of the last
/// dispatch. (`Session::step` puts exactly these in the resume command.)
pub proof fn lemma_resume_after_run(s: SessionView, inputs: Seq<Input>)
    ensures
        output(run(s, inputs), Input::EndOfStream) is Reconnect,
        run(s, inputs).session_id == s.session_id,
        run(s, inputs).token == s.token,
        run(s, inputs).seq == last_dispatched(s.seq, inputs),
{
    lemma_identity_kept(s, inputs);
    lemma_sequence_follows_dispatches(s, inputs);
}

/// A frame that does not decode is logged and changes nothing: the loop goes on with the same
/// session.
pub proof fn lemma_undecodable_frame_changes_nothing(s: SessionView)
    ensures
        next(s, Input::Undecodable) == s,
        output(s, Input::Undecodable) is LogDecodeError,
{
}

/// A dispatch whose number does not follow the session's is delivered with a gap warning, and
/// the session takes its number all the same.
pub proof fn lemma_gap_warned_and_followed(s: SessionView, n: usize)
    requires
        n != s.seq + 1,
    ensures
        output(s, Input::Dispatch(n)) == (Output::Deliver { gap: true }),
        next(s, Input::Dispatch(n)).seq == n,
{
}

/// A session that the service declares invalid and not resumable, in answer to a resume, has
/// lost its identity: the loop starts over with a fresh handshake. Anywhere else the
/// declaration is only logged.
pub proof fn lemma_rejected_resume_starts_over(s: SessionView, inputs: Seq<Input>, resumable: bool)
    requires
        forall|i: int|
            0 <= i < inputs.len() ==> !(#[trigger] inputs[i] is Dispatch) && !(
            inputs[i] is HeartbeatAck),
    ensures
        output(run(next(s, Input::EndOfStream), inputs), Input::InvalidSession(resumable))
            == if resumable {
            Output::LogInvalidSession
        } else {
            Output::StartOver
        },
        !s.resume_pending ==> output(s, Input::InvalidSession(resumable))
            == Output::LogInvalidSession,
{
    lemma_pending_kept(next(s, Input::EndOfStream), inputs);
}

proof fn lemma_pending_kept(s: SessionView, inputs: Seq<Input>)
    requires
        s.resume_pending,
        forall|i: int|
            0 <= i < inputs.len() ==> !(#[trigger] inputs[i] is Dispatch) && !(
            inputs[i] is HeartbeatAck),
    ensures
        run(s, inputs).resume_pending,
    decreases inputs.len(),
{
    if inputs.len() > 0 {
        assert(!(inputs[0] is Dispatch) && !(inputs[0] is HeartbeatAck));
        let rest = inputs.drop_first();
        assert(forall|i: int| 0 <= i < rest.len() ==> rest[i] == inputs[i + 1]);
        lemma_pending_kept(next(s, inputs[0]), rest);
    }
}

pub open spec fn no_ack_or_end(inputs: Seq<Input>) -> bool {
    forall|i: int|
        0 <= i < inputs.len() ==> !(#[trigger] inputs[i] is HeartbeatAck) && !(inputs[i] is EndOfStream)
}

pub open spec fn no_end(inputs: Seq<Input>) -> bool {
    forall|i: int| 0 <= i < inputs.len() ==> !(#[trigger] inputs[i] is EndOfStream)
}

proof fn lemma_unacked_window(t: SessionView, mids: Seq<Input>)
    requires
        !t.heartbeat_acked,
        !t.closing,
        no_ack_or_end(mids),
        forall|i: int| 0 <= i < mids.len() ==> !(#[trigger] mids[i] is Timer),
    ensures
        !run(t, mids).heartbeat_acked,
        count_closes(outputs(t, mids)) == if run(t, mids).closing {
            1nat
        } else {
            0nat
        },
    decreases mids.len(),
{
    if mids.len() == 0 {
        assert(outputs(t, mids) =~= Seq::<Output>::empty());
    } else {
        let first = mids[0];
        let rest = mids.drop_first();
        assert(mids =~= seq![first] + rest);
        assert(!(first is HeartbeatAck) && !(first is EndOfStream) && !(first is Timer));
        lemma_run_first(t, first, rest);
        lemma_count_closes_first(output(t, first), outputs(next(t, first), rest));
        let t2 = next(t, first);
        assert(forall|i: int| 0 <= i < rest.len() ==> rest[i] == mids[i + 1]);
        if t2.closing {
            lemma_closing_stays(t2, rest);
            lemma_closing_keeps_unacked(t2, rest);
        } else {
            lemma_unacked_window(t2, rest);
        }
    }
}

proof fn lemma_closing_keeps_unacked(t: SessionView, rest: Seq<Input>)
    requires
        t.closing,
        !t.heartbeat_acked,
        no_ack_or_end(rest),
    ensures
        !run(t, rest).heartbeat_acked,
    decreases rest.len(),
{
    if rest.len() > 0 {
        assert(!(rest[0] is HeartbeatAck) && !(rest[0] is EndOfStream));
        let r2 = rest.drop_first();
        assert(forall|i: int| 0 <= i < r2.len() ==> r2[i] == rest[i + 1]);
        lemma_closing_keeps_unacked(next(t, rest[0]), r2);
    }
}

proof fn lemma_closing_stays(t: SessionView, rest: Seq<Input>)
    requires
        t.closing,
        no_end(rest),
    ensures
        run(t, rest).closing,
        count_closes(outputs(t, rest)) == 0,
    decreases rest.len(),
{
    if rest.len() == 0 {
        assert(outputs(t, rest) =~= Seq::<Output>::empty());
    } else {
        let first = rest[0];
        let r2 = rest.drop_first();
        assert(rest =~= seq![first] + r2);
        assert(!(first is EndOfStream));
        lemma_run_first(t, first, r2);
        lemma_count_closes_first(output(t, first), outputs(next(t, first), r2));
        assert(forall|i: int| 0 <= i < r2.len() ==> r2[i] == rest[i + 1]);
        lemma_closing_stays(next(t, first), r2);
    }
}

/// A heartbeat that is not acknowledged before the timer fires again brings exactly one close
/// of the transport, however the loop goes on, until the transport ends; its end then brings a
/// reconnect. `mids` are the loop events of the window after the heartbeat, `rest` those after
/// the timer fires again.
pub proof fn lemma_missed_ack_closes_once(s: SessionView, mids: Seq<Input>, rest: Seq<Input>)
    requires
        s.heartbeat_acked,
        !s.closing,
        no_ack_or_end(mids),
        forall|i: int| 0 <= i < mids.len() ==> !(#[trigger] mids[i] is Timer),
        no_end(rest),
    ensures
        output(s, Input::Timer) is SendHeartbeat,
        count_closes(outputs(s, seq![Input::Timer] + mids + seq![Input::Timer] + rest)) == 1,
        output(run(s, seq![Input::Timer] + mids + seq![Input::Timer] + rest), Input::EndOfStream)
            is Reconnect,
{
    let beat = seq![Input::Timer];
    let e = Seq::<Input>::empty();
    lemma_run_first(s, Input::Timer, e);
    let t1 = run(s, beat);
    lemma_unacked_window(t1, mids);
    let t2 = run(t1, mids);
    lemma_run_first(t2, Input::Timer, e);
    let t3 = run(t2, beat);
    lemma_closing_stays(t3, rest);
    lemma_run_append(s, beat, mids);
    lemma_run_append(s, beat + mids, beat);
    lemma_run_append(s, beat + mids + beat, rest);
    let o1 = outputs(s, beat);
    let o2 = outputs(t1, mids);
    let o3 = outputs(t2, beat);
    let o4 = outputs(t3, rest);
    lemma_count_closes_append(o1, o2);
    lemma_count_closes_append(o1 + o2, o3);
    lemma_count_closes_append(o1 + o2 + o3, o4);
    lemma_count_closes_first(output(s, Input::Timer), Seq::<Output>::empty());
    lemma_count_closes_first(output(t2, Input::Timer), Seq::<Output>::empty());
    assert(seq![output(s, Input::Timer)] + Seq::<Output>::empty() =~= o1);
    assert(seq![output(t2, Input::Timer)] + Seq::<Output>::empty() =~= o3);
    assert(count_closes(Seq::<Output>::empty()) == 0);
}

} // verus!
