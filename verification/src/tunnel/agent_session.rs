//! The agent's side of a control connection: what is done when something happens on it.
//!
//! Times are nanoseconds of the monotonic clock.
use vstd::prelude::*;

use crate::progress::Progress;
use crate::tunnel::agent::{
    command_of, read_command, report_due, status_frame, Reports, ServerCommand, ServerCommandView,
};
use crate::tunnel::agreement;
use crate::tunnel::control::{command_bytes, elapsed, is_idle, AGENT_IDLE_TIMEOUT, CMD_PING};
use crate::socks5::{self, TargetError};
use crate::tunnel_common::TunnelCmd;

verus! {

/// What happens on a control connection.
#[derive(Debug)]
pub enum SessionEvent {
    /// It is time for a ping.
    PingDue,
    /// A ping could not be sent in time.
    PingTimedOut,
    /// It is time for a report; this is what there is to report.
    ReportDue(Option<String>),
    /// The agent is to stop.
    Stop,
    /// The server sent these bytes.
    Received(Vec<u8>),
    /// The server is gone.
    Closed,
}

/// What is done on a control connection.
#[derive(Debug)]
pub enum SessionAction {
    /// Wait for whatever happens next; one byte is read at a time.
    Wait,
    /// Read this many bytes, and nothing else before.
    Fetch(usize),
    /// Send a ping, within five seconds.
    Ping(Vec<u8>),
    /// Send a report.
    Report(Vec<u8>),
    /// Do what the server says, and wait.
    Start(ServerCommand),
    /// The connection is over; `stopped` says whether the agent is to stop.
    End { stopped: bool },
}

/// `SessionAction`, by contents.
pub enum SessionActionView {
    Wait,
    Fetch(usize),
    Ping(Seq<u8>),
    Report(Seq<u8>),
    Start(ServerCommandView),
    End(bool),
}

impl SessionAction {
    /// The action by its contents.
    pub open spec fn view(&self) -> SessionActionView {
        match self {
            SessionAction::Wait => SessionActionView::Wait,
            SessionAction::Fetch(n) => SessionActionView::Fetch(*n),
            SessionAction::Ping(bytes) => SessionActionView::Ping(bytes@),
            SessionAction::Report(bytes) => SessionActionView::Report(bytes@),
            SessionAction::Start(command) => SessionActionView::Start(command@),
            SessionAction::End { stopped } => SessionActionView::End(*stopped),
        }
    }
}

/// A control connection. In the second protocol version the agent reports on its device.
#[derive(Debug)]
pub struct AgentSession {
    pub protocol_version: u8,
    /// When the server was last heard of.
    pub last_pong: u64,
    pub reports: Reports,
    /// The bytes of a command that has begun.
    pub begun: Vec<u8>,
}

/// `AgentSession`, by contents.
pub struct SessionView {
    pub protocol_version: u8,
    pub last_pong: u64,
    pub last_report: Option<Seq<char>>,
    pub reported_at: u64,
    pub begun: Seq<u8>,
}

impl View for AgentSession {
    type V = SessionView;

    open spec fn view(&self) -> SessionView {
        SessionView {
            protocol_version: self.protocol_version,
            last_pong: self.last_pong,
            last_report: self.reports.last_text(),
            reported_at: self.reports.sent_at,
            begun: self.begun@,
        }
    }
}

/// What becomes of a connection when bytes have come.
pub open spec fn commanded(session: SessionView, b: Seq<u8>, now: u64) -> (
    SessionView,
    SessionActionView,
) {
    let command = session.begun + b;
    let idle = SessionView { begun: seq![], ..session };
    match command_of(command, session.protocol_version) {
        Progress::More(n) => (
            SessionView { begun: command, ..session },
            SessionActionView::Fetch(n),
        ),
        Progress::Failed(_) => (idle, SessionActionView::End(false)),
        Progress::Done { value, used } => if value is Ping {
            (SessionView { last_pong: now, ..idle }, SessionActionView::Wait)
        } else {
            (idle, SessionActionView::Start(value))
        },
    }
}

/// What becomes of a connection when it is time for a report: one that is due and not too long is
/// sent.
pub open spec fn reported(session: SessionView, status: Option<Seq<char>>, now: u64) -> (
    SessionView,
    SessionActionView,
) {
    match status {
        Some(status) => if session.protocol_version == 2 && report_due(
            session.last_report,
            session.reported_at,
            status,
            now,
        ) && status_frame(status) is Some {
            (
                SessionView { last_report: Some(status), reported_at: now, ..session },
                SessionActionView::Report(status_frame(status)->Some_0),
            )
        } else {
            (session, SessionActionView::Wait)
        },
        None => (session, SessionActionView::Wait),
    }
}

/// What becomes of a connection when something happens. A server that was not heard of for too
/// long is given up.
pub open spec fn session_outcome(session: SessionView, event: SessionEvent, now: u64) -> (
    SessionView,
    SessionActionView,
) {
    match event {
        SessionEvent::PingDue => if elapsed(session.last_pong, now) > AGENT_IDLE_TIMEOUT {
            (session, SessionActionView::End(false))
        } else {
            (session, SessionActionView::Ping(seq![CMD_PING]))
        },
        SessionEvent::PingTimedOut => (session, SessionActionView::End(false)),
        SessionEvent::ReportDue(status) => reported(
            session,
            match status {
                Some(status) => Some(status@),
                None => None,
            },
            now,
        ),
        SessionEvent::Stop => (session, SessionActionView::End(true)),
        SessionEvent::Received(b) => commanded(session, b@, now),
        SessionEvent::Closed => (session, SessionActionView::End(false)),
    }
}

/// The first report, where there is one to be sent.
pub open spec fn first_report(protocol_version: u8, status: Option<Seq<char>>) -> Option<
    Seq<char>,
> {
    match status {
        Some(status) => if protocol_version == 2 && status_frame(status) is Some {
            Some(status)
        } else {
            None
        },
        None => None,
    }
}

impl AgentSession {
    /// A connection that begins, and the report that is sent first, where there is one.
    pub fn new(protocol_version: u8, status: Option<String>, now: u64) -> (res: (
        AgentSession,
        Option<Vec<u8>>,
    ))
        ensures
            ({
                let first = first_report(
                    protocol_version,
                    match status {
                        Some(status) => Some(status@),
                        None => None,
                    },
                );
                &&& res.0@ == (SessionView {
                    protocol_version,
                    last_pong: now,
                    last_report: first,
                    reported_at: now,
                    begun: seq![],
                })
                &&& match res.1 {
                    Some(frame) => first is Some && status_frame(first->Some_0) == Some(frame@),
                    None => first is None,
                }
            }),
    {
        let first = if protocol_version == 2 {
            status
        } else {
            None
        };
        let (reports, frame) = Reports::begin(first, now);
        let begun: Vec<u8> = Vec::new();
        assert(begun@ =~= seq![]);
        (AgentSession { protocol_version, last_pong: now, reports, begun }, frame)
    }

    /// Takes bytes that came.
    fn obey(&mut self, b: &[u8], now: u64) -> (res: SessionAction)
        ensures
            (final(self)@, res@) == commanded(old(self)@, b@, now),
    {
        let ghost before = self@;
        let mut command: Vec<u8> = Vec::new();
        command.extend_from_slice(self.begun.as_slice());
        command.extend_from_slice(b);
        assert(command@ =~= before.begun + b@);
        self.begun = Vec::new();
        assert(self.begun@ =~= seq![]);
        match read_command(command.as_slice(), self.protocol_version) {
            Progress::More(n) => {
                self.begun = command;
                SessionAction::Fetch(n)
            },
            Progress::Failed(_) => SessionAction::End { stopped: false },
            Progress::Done { value, used: _ } => match value {
                ServerCommand::Ping => {
                    self.last_pong = now;
                    SessionAction::Wait
                },
                value => SessionAction::Start(value),
            },
        }
    }

    /// Takes what happens: what is to be done.
    pub fn run_agent_session(&mut self, event: SessionEvent, now: u64) -> (res: SessionAction)
        ensures
            (final(self)@, res@) == session_outcome(old(self)@, event, now),
    {
        match event {
            SessionEvent::PingDue => {
                if is_idle(self.last_pong, now) {
                    SessionAction::End { stopped: false }
                } else {
                    let mut ping: Vec<u8> = Vec::new();
                    ping.push(CMD_PING);
                    assert(ping@ =~= seq![CMD_PING]);
                    SessionAction::Ping(ping)
                }
            },
            SessionEvent::ReportDue(status) => match status {
                Some(status) => {
                    if self.protocol_version == 2 {
                        match self.reports.report(status, now) {
                            Some(frame) => SessionAction::Report(frame),
                            None => SessionAction::Wait,
                        }
                    } else {
                        SessionAction::Wait
                    }
                },
                None => SessionAction::Wait,
            },
            SessionEvent::Stop => SessionAction::End { stopped: true },
            SessionEvent::Received(b) => self.obey(b.as_slice(), now),
            _ => SessionAction::End { stopped: false },
        }
    }
}

// ---------------------------------------------------------------------------------------------
// Laws
// ---------------------------------------------------------------------------------------------

/// A command of the server is carried out as the server means it, and the connection waits for
/// the next.
pub proof fn law_commands_are_carried_out(
    session: SessionView,
    cmd: TunnelCmd,
    target: Seq<char>,
    now: u64,
)
    requires
        session.begun.len() == 0,
        command_bytes(session.protocol_version, cmd) is Some,
        cmd matches TunnelCmd::Open { token, target: encoded } ==> socks5::target_bytes(target)
            == Ok::<Seq<u8>, TargetError>(encoded@),
    ensures
        commanded(session, command_bytes(session.protocol_version, cmd)->Some_0, now) == (
            SessionView { begun: seq![], ..session },
            SessionActionView::Start(agreement::meant(cmd, target)),
        ),
{
    let bytes = command_bytes(session.protocol_version, cmd)->Some_0;
    agreement::law_agent_reads_command(session.protocol_version, cmd, target, seq![]);
    assert(bytes + Seq::<u8>::empty() =~= bytes);
    assert(session.begun + bytes =~= bytes);
}

/// Only the agent's own stop ends it; every other end of a connection is followed by another
/// attempt.
pub proof fn law_only_a_stop_stops(session: SessionView, event: SessionEvent, now: u64)
    ensures
        session_outcome(session, event, now).1 == SessionActionView::End(true) <==> event is Stop,
{
}

/// An agent pings its server with a 6, and gives it up when it has not heard of it for more than
/// twenty-five seconds; a ping of the server counts as a sign of life.
pub proof fn law_agent_pings(session: SessionView, event: SessionEvent, now: u64)
    requires
        session.begun.len() == 0,
        event matches SessionEvent::Received(b) && b@ == seq![6u8],
    ensures
        session_outcome(session, SessionEvent::PingDue, now) == (
            session,
            if now - session.last_pong > 25_000_000_000 {
                SessionActionView::End(false)
            } else {
                SessionActionView::Ping(seq![6u8])
            },
        ),
        session_outcome(session, event, now) == (
            SessionView { last_pong: now, ..session },
            SessionActionView::Wait,
        ),
{
    assert(session.begun + seq![6u8] =~= seq![6u8]);
    assert(session.begun =~= Seq::<u8>::empty());
}

/// A report is sent where it differs from the last one or the last one is a minute old, by an
/// agent of version 2 and where it is not too long; it is the report that there is, and it is
/// remembered with the time. Nothing else is sent.
pub proof fn law_reports_are_sent(session: SessionView, event: SessionEvent, now: u64)
    requires
        event matches SessionEvent::ReportDue(Some(status)),
    ensures
        ({
            let status = match event {
                SessionEvent::ReportDue(Some(status)) => status@,
                _ => seq![],
            };
            let bytes = vstd::utf8::encode_utf8(status);
            let (after, action) = session_outcome(session, event, now);
            if session.protocol_version == 2 && bytes.len() <= 1024 && (session.last_report != Some(
                status,
            ) || now - session.reported_at >= 60_000_000_000) {
                &&& action == SessionActionView::Report(
                    seq![0x11u8, (bytes.len() / 256) as u8, (bytes.len() % 256) as u8] + bytes,
                )
                &&& after == (SessionView {
                    last_report: Some(status),
                    reported_at: now,
                    ..session
                })
            } else {
                after == session && action is Wait
            }
        }),
        session_outcome(session, SessionEvent::ReportDue(None), now) == (
            session,
            SessionActionView::Wait,
        ),
{
    let status = match event {
        SessionEvent::ReportDue(Some(status)) => status@,
        _ => seq![],
    };
    let bytes = vstd::utf8::encode_utf8(status);
    if bytes.len() <= 1024 {
        let n = bytes.len() as u16;
        assert(seq![0x11u8] + crate::net::be16(n) + bytes =~= seq![
            0x11u8,
            (bytes.len() / 256) as u8,
            (bytes.len() % 256) as u8,
        ] + bytes);
    }
}

/// The first report is what there is, where the server takes reports and it is not too long.
pub proof fn law_first_report(version: u8, status: Seq<char>)
    ensures
        first_report(2, Some(status)) == if vstd::utf8::encode_utf8(status).len() <= 1024 {
            Some(status)
        } else {
            None
        },
        version != 2 ==> first_report(version, Some(status)) is None,
        first_report(version, None) is None,
{
}

} // verus!
