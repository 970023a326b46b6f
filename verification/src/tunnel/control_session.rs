//! The server's side of a control connection: what is done when something happens on it.
//!
//! Times are nanoseconds of the monotonic clock.
use vstd::prelude::*;
use vstd::utf8::encode_utf8;

use crate::progress::Progress;
use crate::tunnel::agent;
use crate::tunnel::agreement;
use crate::tunnel::control::{
    agent_message_of, command_bytes, discard_control_bytes, elapsed, encode_command, is_idle,
    read_agent_message, AgentMessage, AgentMessageView, AGENT_IDLE_TIMEOUT, CMD_PING,
    MAX_STATUS_BYTES,
};
use crate::tunnel_common::TunnelCmd;

verus! {

/// What happens on a control connection.
#[derive(Debug)]
pub enum ControlEvent {
    /// Time has passed.
    Tick,
    /// There is a command for the agent.
    Command(TunnelCmd),
    /// There will be no more commands.
    ChannelClosed,
    /// A command could not be sent.
    NotSent,
    /// The agent sent these bytes.
    Received(Vec<u8>),
    /// The agent is gone.
    Closed,
}

/// What is done on a control connection.
#[derive(Debug)]
pub enum ControlAction {
    /// Wait for whatever happens next; one byte is read at a time.
    Wait,
    /// Read this many bytes, and nothing else before.
    Fetch(usize),
    /// Answer a ping with these bytes, whether or not they arrive.
    Pong(Vec<u8>),
    /// Send the agent these bytes.
    Send(Vec<u8>),
    /// Take a report of the agent's device.
    Record(Vec<u8>),
    /// The agent sent something that means nothing; wait.
    Unknown(u8),
    /// The connection is over.
    End,
}

/// `ControlAction`, by contents.
pub enum ControlActionView {
    Wait,
    Fetch(usize),
    Pong(Seq<u8>),
    Send(Seq<u8>),
    Record(Seq<u8>),
    Unknown(u8),
    End,
}

impl ControlAction {
    /// The action by its contents.
    pub open spec fn view(&self) -> ControlActionView {
        match self {
            ControlAction::Wait => ControlActionView::Wait,
            ControlAction::Fetch(n) => ControlActionView::Fetch(*n),
            ControlAction::Pong(bytes) => ControlActionView::Pong(bytes@),
            ControlAction::Send(bytes) => ControlActionView::Send(bytes@),
            ControlAction::Record(payload) => ControlActionView::Record(payload@),
            ControlAction::Unknown(byte) => ControlActionView::Unknown(*byte),
            ControlAction::End => ControlActionView::End,
        }
    }
}

/// A control connection.
#[derive(Debug)]
pub struct ControlSession {
    pub protocol_version: u8,
    /// When the agent was last heard of.
    pub last_activity: u64,
    /// The bytes of a message that has begun.
    pub begun: Vec<u8>,
    /// How many bytes are still to be skipped.
    pub skipping: usize,
    pub over: bool,
}

/// `ControlSession`, by contents.
pub struct ControlView {
    pub protocol_version: u8,
    pub last_activity: u64,
    pub begun: Seq<u8>,
    pub skipping: usize,
    pub over: bool,
}

impl View for ControlSession {
    type V = ControlView;

    open spec fn view(&self) -> ControlView {
        ControlView {
            protocol_version: self.protocol_version,
            last_activity: self.last_activity,
            begun: self.begun@,
            skipping: self.skipping,
            over: self.over,
        }
    }
}

/// How many of the bytes that are to be skipped are read at once.
pub open spec fn skipped_at_once(n: int) -> usize {
    if n < MAX_STATUS_BYTES {
        n as usize
    } else {
        MAX_STATUS_BYTES
    }
}

/// What becomes of a connection that is over.
pub open spec fn ended(session: ControlView) -> (ControlView, ControlActionView) {
    (ControlView { over: true, ..session }, ControlActionView::End)
}

/// What becomes of a connection on which bytes are skipped when some have come.
pub open spec fn skipped(session: ControlView, n: int) -> (ControlView, ControlActionView) {
    if session.skipping <= n {
        (ControlView { skipping: 0, ..session }, ControlActionView::Wait)
    } else {
        let left = session.skipping - n;
        (
            ControlView { skipping: left as usize, ..session },
            ControlActionView::Fetch(skipped_at_once(left)),
        )
    }
}

/// What becomes of a connection when bytes have come. The agent is heard of when a message
/// begins.
pub open spec fn heard(session: ControlView, b: Seq<u8>, now: u64) -> (
    ControlView,
    ControlActionView,
) {
    let message = session.begun + b;
    let at = if session.begun.len() == 0 {
        now
    } else {
        session.last_activity
    };
    let idle = ControlView { last_activity: at, begun: seq![], ..session };
    match agent_message_of(message, session.protocol_version) {
        Progress::More(n) => (
            ControlView { begun: message, ..idle },
            ControlActionView::Fetch(n),
        ),
        Progress::Failed(_) => ended(idle),
        Progress::Done { value, used } => match value {
            AgentMessageView::Ping => (idle, ControlActionView::Pong(seq![CMD_PING])),
            AgentMessageView::Status(payload) => (idle, ControlActionView::Record(payload)),
            AgentMessageView::Oversized(n) => (
                ControlView { skipping: n as usize, ..idle },
                ControlActionView::Fetch(skipped_at_once(n)),
            ),
            AgentMessageView::Unknown(byte) => (idle, ControlActionView::Unknown(byte)),
        },
    }
}

/// What becomes of a connection when something happens. An agent that was not heard of for too
/// long is given up.
pub open spec fn control_outcome(session: ControlView, event: ControlEvent, now: u64) -> (
    ControlView,
    ControlActionView,
) {
    if session.over {
        ended(session)
    } else {
        match event {
            ControlEvent::Tick => if elapsed(session.last_activity, now) > AGENT_IDLE_TIMEOUT {
                ended(session)
            } else {
                (session, ControlActionView::Wait)
            },
            ControlEvent::Command(cmd) => match command_bytes(session.protocol_version, cmd) {
                Some(bytes) => (session, ControlActionView::Send(bytes)),
                None => (session, ControlActionView::Wait),
            },
            ControlEvent::ChannelClosed => ended(session),
            ControlEvent::NotSent => ended(session),
            ControlEvent::Received(b) => if session.skipping > 0 {
                skipped(session, b@.len() as int)
            } else {
                heard(session, b@, now)
            },
            ControlEvent::Closed => ended(session),
        }
    }
}

impl ControlSession {
    /// A connection that begins.
    pub fn new(protocol_version: u8, now: u64) -> (res: ControlSession)
        ensures
            res@ == (ControlView {
                protocol_version,
                last_activity: now,
                begun: seq![],
                skipping: 0,
                over: false,
            }),
    {
        let begun: Vec<u8> = Vec::new();
        assert(begun@ =~= seq![]);
        ControlSession { protocol_version, last_activity: now, begun, skipping: 0, over: false }
    }

    /// Takes bytes that came.
    fn hear(&mut self, b: &[u8], now: u64) -> (res: ControlAction)
        ensures
            (final(self)@, res@) == heard(old(self)@, b@, now),
    {
        let ghost before = self@;
        if self.begun.len() == 0 {
            self.last_activity = now;
        }
        let mut message: Vec<u8> = Vec::new();
        message.extend_from_slice(self.begun.as_slice());
        message.extend_from_slice(b);
        assert(message@ =~= before.begun + b@);
        self.begun = Vec::new();
        assert(self.begun@ =~= seq![]);
        match read_agent_message(message.as_slice(), self.protocol_version) {
            Progress::More(n) => {
                self.begun = message;
                ControlAction::Fetch(n)
            },
            Progress::Failed(_) => {
                self.over = true;
                ControlAction::End
            },
            Progress::Done { value, used: _ } => match value {
                AgentMessage::Ping => {
                    let mut pong: Vec<u8> = Vec::new();
                    pong.push(CMD_PING);
                    assert(pong@ =~= seq![CMD_PING]);
                    ControlAction::Pong(pong)
                },
                AgentMessage::Status(payload) => ControlAction::Record(payload),
                AgentMessage::Oversized(n) => {
                    self.skipping = n;
                    ControlAction::Fetch(discard_control_bytes(n))
                },
                AgentMessage::Unknown(byte) => ControlAction::Unknown(byte),
            },
        }
    }

    /// Takes what happens: what is to be done.
    pub fn handle_control_connection(&mut self, event: ControlEvent, now: u64) -> (res:
        ControlAction)
        ensures
            (final(self)@, res@) == control_outcome(old(self)@, event, now),
    {
        if self.over {
            return ControlAction::End;
        }
        match event {
            ControlEvent::Tick => {
                if is_idle(self.last_activity, now) {
                    self.over = true;
                    ControlAction::End
                } else {
                    ControlAction::Wait
                }
            },
            ControlEvent::Command(cmd) => match encode_command(self.protocol_version, &cmd) {
                Some(bytes) => ControlAction::Send(bytes),
                None => ControlAction::Wait,
            },
            ControlEvent::Received(b) => {
                if self.skipping > 0 {
                    if self.skipping <= b.len() {
                        self.skipping = 0;
                        ControlAction::Wait
                    } else {
                        self.skipping = self.skipping - b.len();
                        ControlAction::Fetch(discard_control_bytes(self.skipping))
                    }
                } else {
                    self.hear(b.as_slice(), now)
                }
            },
            _ => {
                self.over = true;
                ControlAction::End
            },
        }
    }
}

// ---------------------------------------------------------------------------------------------
// Laws
// ---------------------------------------------------------------------------------------------

/// A device's report that comes in pieces, each as long as was asked for, is taken as it was sent,
/// and the connection waits for the next message.
pub proof fn law_reports_are_taken_in_pieces(session: ControlView, status: Seq<char>, now: u64)
    requires
        !session.over,
        session.skipping == 0,
        session.begun.len() == 0,
        session.protocol_version == 2,
        agent::status_frame(status) is Some,
        encode_utf8(status).len() > 0,
    ensures
        ({
            let frame = agent::status_frame(status)->0;
            let (first, fetch) = heard(session, frame.take(1), now);
            let (second, fetch_rest) = heard(first, frame.subrange(1, 3), now);
            let (third, action) = heard(second, frame.skip(3), now);
            &&& fetch == ControlActionView::Fetch(2)
            &&& fetch_rest == ControlActionView::Fetch((frame.len() - 3) as usize)
            &&& action == ControlActionView::Record(encode_utf8(status))
            &&& third == (ControlView { last_activity: now, begun: seq![], ..session })
        }),
{
    let frame = agent::status_frame(status)->0;
    agreement::law_server_reads_status(status);
    let bytes = encode_utf8(status);
    crate::net::lemma_be16(bytes.len() as u16);
    let (first, fetch) = heard(session, frame.take(1), now);
    assert(session.begun + frame.take(1) =~= frame.take(1));
    let (second, fetch_rest) = heard(first, frame.subrange(1, 3), now);
    assert(frame.take(1) + frame.subrange(1, 3) =~= frame.take(3));
    assert(frame[1] == crate::net::be16(bytes.len() as u16)[0]);
    assert(frame[2] == crate::net::be16(bytes.len() as u16)[1]);
    assert(frame.take(3) + frame.skip(3) =~= frame);
}

/// An agent that is heard of at least every 25 seconds is never given up for silence.
pub proof fn law_live_agents_are_kept(session: ControlView, now: u64)
    requires
        !session.over,
        elapsed(session.last_activity, now) <= AGENT_IDLE_TIMEOUT,
    ensures
        control_outcome(session, ControlEvent::Tick, now) == (session, ControlActionView::Wait),
{
}

/// A ping is answered with a ping and counts as a sign of life; a byte that means nothing counts
/// as one too.
pub proof fn law_pings_are_answered(session: ControlView, event: ControlEvent, first: u8, now: u64)
    requires
        !session.over,
        session.skipping == 0,
        session.begun.len() == 0,
        event matches ControlEvent::Received(b) && b@ == seq![first],
    ensures
        first == 6 ==> control_outcome(session, event, now) == (
            ControlView { last_activity: now, ..session },
            ControlActionView::Pong(seq![6u8]),
        ),
        first != 6 && (first != 0x11 || session.protocol_version != 2) ==> control_outcome(
            session,
            event,
            now,
        ) == (
            ControlView { last_activity: now, ..session },
            ControlActionView::Unknown(first),
        ),
{
    assert(session.begun + seq![first] =~= seq![first]);
    assert(session.begun =~= Seq::<u8>::empty());
}

/// An agent that is silent for more than twenty-five seconds is given up, and none before.
pub proof fn law_silent_agents_are_given_up(session: ControlView, now: u64)
    requires
        !session.over,
    ensures
        control_outcome(session, ControlEvent::Tick, now).1 is End <==> now - session.last_activity
            > 25_000_000_000,
        !(control_outcome(session, ControlEvent::Tick, now).1 is End) ==> control_outcome(
            session,
            ControlEvent::Tick,
            now,
        ) == (session, ControlActionView::Wait),
{
}

/// A command for the agent is sent as its bytes, and one that its version does not know is not;
/// neither changes the connection.
pub proof fn law_commands_are_sent(session: ControlView, cmd: TunnelCmd, now: u64)
    requires
        !session.over,
    ensures
        ({
            let (after, action) = control_outcome(session, ControlEvent::Command(cmd), now);
            &&& after == session
            &&& match command_bytes(session.protocol_version, cmd) {
                Some(bytes) => action == ControlActionView::Send(bytes),
                None => action is Wait,
            }
        }),
{
}

/// A connection is over once it is closed, its channel is, or a command could not be sent; then
/// nothing brings it back.
pub proof fn law_over_stays_over(session: ControlView, event: ControlEvent, now: u64)
    ensures
        session.over ==> control_outcome(session, event, now).1 is End && control_outcome(
            session,
            event,
            now,
        ).0.over,
        event is Closed || event is ChannelClosed || event is NotSent ==> control_outcome(
            session,
            event,
            now,
        ).1 is End && control_outcome(session, event, now).0.over,
        control_outcome(session, event, now).1 is End ==> control_outcome(session, event, now).0.over,
{
}

/// A report that is too long is skipped to its last byte, at most 1024 at a time, and nothing of
/// it is recorded; the next message is then read from its first byte.
pub proof fn law_long_reports_are_skipped(
    session: ControlView,
    event: ControlEvent,
    b: Seq<u8>,
    now: u64,
)
    requires
        !session.over,
        event matches ControlEvent::Received(bytes) && bytes@ == b,
        session.skipping > 0,
        b.len() <= session.skipping,
    ensures
        ({
            let (after, action) = control_outcome(session, event, now);
            let left = session.skipping - b.len();
            &&& after.skipping == left
            &&& after.begun == session.begun
            &&& left == 0 ==> action is Wait
            &&& 0 < left <= 1024 ==> action == ControlActionView::Fetch(left as usize)
            &&& left > 1024 ==> action == ControlActionView::Fetch(1024)
        }),
{
}

/// A report that says that it is longer than 1024 bytes is the one that is skipped: as many bytes
/// as it says.
pub proof fn law_long_reports_begin(
    session: ControlView,
    event: ControlEvent,
    hi: u8,
    lo: u8,
    now: u64,
)
    requires
        !session.over,
        session.skipping == 0,
        session.protocol_version == 2,
        session.begun == seq![0x11u8],
        event matches ControlEvent::Received(b) && b@ == seq![hi, lo],
        hi * 256 + lo > 1024,
    ensures
        control_outcome(session, event, now) == (
            ControlView {
                begun: Seq::<u8>::empty(),
                skipping: (hi * 256 + lo) as usize,
                ..session
            },
            ControlActionView::Fetch(1024),
        ),
{
    let message = seq![0x11u8] + seq![hi, lo];
    assert(message[0] == 0x11 && message[1] == hi && message[2] == lo);
}

} // verus!
