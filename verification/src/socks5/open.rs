//! Opening a connection to a target: through an agent of either protocol version, or directly.
//!
//! An attempt is a machine. It is told what happened outside, and says what is to be done next.
use vstd::prelude::*;
use vstd::slice::{slice_subrange, slice_to_vec};
use vstd::utf8::valid_utf8;

use crate::net;
use crate::progress::Progress;
use crate::registry;
use crate::socks5::{self, PacketError, TargetError};
use crate::text;
use crate::tunnel_common::TunnelCmd;

verus! {

/// How often a random number is drawn before the attempt is given up.
pub const MAX_DRAWS: u32 = 32;

/// Why an agent cannot be used.
#[derive(Clone, Copy, Debug, PartialEq, Eq, Structural)]
pub enum AgentFault {
    /// It is not connected.
    Offline,
    /// It is changing its address.
    Resetting,
    /// There are no random bytes.
    NoRandom,
    /// Every request number that was drawn was taken.
    NoRequestId,
    /// Every token that was drawn was taken.
    NoToken,
    /// The command could not be sent.
    NotSent,
    /// The data channel was dropped; of which request, where it has a number.
    Dropped(Option<u32>),
    /// The data connection did not come in time; for which request, where it has a number.
    TimedOut(Option<u32>),
    /// The data connection failed.
    Io,
    /// The agent answered the greeting with other bytes than it should.
    Refused(u8, u8),
    /// The agent's reply is no packet.
    Reply(PacketError),
}

/// Why a target cannot be reached.
#[derive(Clone, Copy, Debug, PartialEq, Eq, Structural)]
pub enum TargetFault {
    /// Its address cannot be encoded.
    Address(TargetError),
    /// The agent could not reach it.
    Unreachable,
    /// The agent reported this outcome.
    Reported(u8),
    /// It could not be dialled.
    Io,
    /// The connection to it could not be set up.
    Setup,
}

/// Why a connection could not be opened.
#[derive(Clone, Copy, Debug, PartialEq, Eq, Structural)]
pub enum ConnectError {
    AgentUnavailable(AgentFault),
    Target(TargetFault),
}

/// What is known of an attempt that failed.
#[derive(Clone, Copy, Debug)]
pub struct Failure<'a> {
    pub target: &'a str,
    /// All the bytes that came over the data connection.
    pub received: &'a [u8],
    /// What the system said, where it was the one that failed.
    pub cause: &'a str,
}

/// The host name in the reply that follows the answer to a greeting; none where it is cut off.
pub open spec fn reply_host(received: Seq<u8>) -> Seq<u8> {
    if received.len() < 7 || received.len() < 7 + received[6] {
        seq![]
    } else {
        received.subrange(7, 7 + received[6])
    }
}

/// What is wrong with bytes that should be UTF-8; nothing where they are.
pub open spec fn encoding_words(b: Seq<u8>) -> Seq<char> {
    if valid_utf8(b) {
        seq![]
    } else {
        text::utf8_fault(b)
    }
}

/// What is wrong with a text that should be a port number; nothing where it is one.
pub open spec fn port_words(port: Seq<char>) -> Seq<char> {
    if text::number_up_to(port, 65535) is Some {
        seq![]
    } else {
        text::port_fault(port)
    }
}

/// What a fault of an agent is called, by the bytes that came from the agent and by what the
/// system said.
pub open spec fn agent_fault_words(
    fault: AgentFault,
    received: Seq<u8>,
    cause: Seq<char>,
) -> Seq<char> {
    match fault {
        AgentFault::Offline => "Agent is offline"@,
        AgentFault::Resetting => "Agent is resetting"@,
        AgentFault::NoRandom => cause,
        AgentFault::NoRequestId => "Could not reserve a tunnel request ID"@,
        AgentFault::NoToken => "Could not reserve a tunnel token"@,
        AgentFault::NotSent => "channel closed"@,
        AgentFault::Dropped(Some(id)) => "Agent data channel dropped for request "@
            + text::decimal(id as nat),
        AgentFault::Dropped(None) => "Agent data channel dropped"@,
        AgentFault::TimedOut(Some(id)) => "Timeout waiting for agent data connection for request "@
            + text::decimal(id as nat),
        AgentFault::TimedOut(None) => "Timeout waiting for agent data connection"@,
        AgentFault::Io => cause,
        AgentFault::Refused(a, b) => "Agent refused handshake: ["@ + text::decimal(a as nat)
            + ", "@ + text::decimal(b as nat) + "]"@,
        AgentFault::Reply(PacketError::Version) => "Invalid SOCKS version in packet"@,
        AgentFault::Reply(PacketError::AddressType(atyp)) => "Unsupported address type: "@
            + text::decimal(atyp as nat),
        AgentFault::Reply(PacketError::HostEncoding) => encoding_words(reply_host(received)),
        AgentFault::Reply(PacketError::EmptyHost) => "empty hostname"@,
    }
}

/// What stands before the last colon of a target.
pub open spec fn host_part(target: Seq<char>) -> Seq<char> {
    let colon = text::last_position(target, ':');
    if colon < 0 {
        seq![]
    } else {
        target.take(colon)
    }
}

/// What stands behind the last colon of a target.
pub open spec fn port_part(target: Seq<char>) -> Seq<char> {
    let colon = text::last_position(target, ':');
    if colon < 0 {
        seq![]
    } else {
        target.skip(colon + 1)
    }
}

/// What a fault of a target is called, by the target and by what the system said.
pub open spec fn target_fault_words(
    fault: TargetFault,
    target: Seq<char>,
    cause: Seq<char>,
) -> Seq<char> {
    match fault {
        TargetFault::Address(TargetError::NoPort) => "Invalid address format: "@ + target,
        TargetFault::Address(TargetError::BadDomain) => "Invalid domain: "@ + host_part(target),
        TargetFault::Address(TargetError::BadPort) => port_words(port_part(target)),
        TargetFault::Unreachable => "Agent could not reach target"@,
        TargetFault::Reported(rep) => "Agent reported error connecting to target: "@
            + text::decimal(rep as nat),
        TargetFault::Io => "Failed to connect to target"@,
        TargetFault::Setup => cause,
    }
}

/// A text and a number behind it.
fn with_number(words: &str, n: u32) -> (res: String)
    ensures
        res@ == words@ + text::decimal(n as nat),
{
    let mut res: String = text::copy_text(words);
    text::push_decimal(&mut res, n as u128);
    res
}

/// The host name in the reply that follows the answer to a greeting.
fn find_reply_host(received: &[u8]) -> (res: Vec<u8>)
    ensures
        res@ == reply_host(received@),
{
    let len: usize = received.len();
    if len < 7 || len < 7 + received[6] as usize {
        let none: Vec<u8> = Vec::new();
        assert(none@ =~= seq![]);
        none
    } else {
        slice_to_vec(slice_subrange(received, 7, 7 + received[6] as usize))
    }
}

impl AgentFault {
    /// What the fault is called.
    pub fn to_text(self, failure: Failure) -> (res: String)
        ensures
            res@ == agent_fault_words(self, failure.received@, failure.cause@),
    {
        match self {
            AgentFault::Offline => text::copy_text("Agent is offline"),
            AgentFault::Resetting => text::copy_text("Agent is resetting"),
            AgentFault::NoRandom => text::copy_text(failure.cause),
            AgentFault::NoRequestId => text::copy_text("Could not reserve a tunnel request ID"),
            AgentFault::NoToken => text::copy_text("Could not reserve a tunnel token"),
            AgentFault::NotSent => text::copy_text("channel closed"),
            AgentFault::Dropped(Some(id)) => with_number(
                "Agent data channel dropped for request ",
                id,
            ),
            AgentFault::Dropped(None) => text::copy_text("Agent data channel dropped"),
            AgentFault::TimedOut(Some(id)) => with_number(
                "Timeout waiting for agent data connection for request ",
                id,
            ),
            AgentFault::TimedOut(None) => text::copy_text(
                "Timeout waiting for agent data connection",
            ),
            AgentFault::Io => text::copy_text(failure.cause),
            AgentFault::Refused(a, b) => {
                let mut res: String = with_number("Agent refused handshake: [", a as u32);
                res = with_number(text::join(res.as_str(), ", ").as_str(), b as u32);
                text::join(res.as_str(), "]")
            },
            AgentFault::Reply(PacketError::Version) => text::copy_text(
                "Invalid SOCKS version in packet",
            ),
            AgentFault::Reply(PacketError::AddressType(atyp)) => with_number(
                "Unsupported address type: ",
                atyp as u32,
            ),
            AgentFault::Reply(PacketError::HostEncoding) => {
                match text::string_from_utf8(find_reply_host(failure.received)) {
                    Ok(_) => String::new(),
                    Err(words) => words,
                }
            },
            AgentFault::Reply(PacketError::EmptyHost) => text::copy_text("empty hostname"),
        }
    }
}

/// What stands before and behind the last colon of a target.
fn split_target(target: &str) -> (res: (String, String))
    ensures
        res.0@ == host_part(target@),
        res.1@ == port_part(target@),
{
    let chars = text::to_chars(target);
    let s = chars.as_slice();
    let n: usize = s.len();
    let (end, start): (usize, usize) = match text::rfind(s, ':') {
        Some(colon) => (colon, colon + 1),
        None => (0, n),
    };
    let host = text::from_chars(slice_subrange(s, 0, end));
    let port = text::from_chars(slice_subrange(s, start, n));
    proof {
        assert(host@ =~= host_part(target@));
        assert(port@ =~= port_part(target@));
    }
    (host, port)
}

impl TargetFault {
    /// What the fault is called.
    pub fn to_text(self, failure: Failure) -> (res: String)
        ensures
            res@ == target_fault_words(self, failure.target@, failure.cause@),
    {
        match self {
            TargetFault::Address(TargetError::NoPort) => text::join(
                "Invalid address format: ",
                failure.target,
            ),
            TargetFault::Address(TargetError::BadDomain) => {
                let (domain, _) = split_target(failure.target);
                text::join("Invalid domain: ", domain.as_str())
            },
            TargetFault::Address(TargetError::BadPort) => {
                let (_, port) = split_target(failure.target);
                match text::parse_port(port.as_str()) {
                    Ok(_) => String::new(),
                    Err(words) => words,
                }
            },
            TargetFault::Unreachable => text::copy_text("Agent could not reach target"),
            TargetFault::Reported(rep) => with_number(
                "Agent reported error connecting to target: ",
                rep as u32,
            ),
            TargetFault::Io => text::copy_text("Failed to connect to target"),
            TargetFault::Setup => text::copy_text(failure.cause),
        }
    }
}

/// What an error is called, by what is known of the attempt.
pub open spec fn error_words(
    error: ConnectError,
    target: Seq<char>,
    received: Seq<u8>,
    cause: Seq<char>,
) -> Seq<char> {
    match error {
        ConnectError::AgentUnavailable(fault) => agent_fault_words(fault, received, cause),
        ConnectError::Target(fault) => target_fault_words(fault, target, cause),
    }
}

impl ConnectError {
    /// What the error is called.
    pub fn to_text(self, failure: Failure) -> (res: String)
        ensures
            res@ == error_words(self, failure.target@, failure.received@, failure.cause@),
    {
        match self {
            ConnectError::AgentUnavailable(fault) => fault.to_text(failure),
            ConnectError::Target(fault) => fault.to_text(failure),
        }
    }
}

/// The way to a target.
#[derive(Clone, Copy, Debug, PartialEq, Eq, Structural)]
pub enum Route {
    /// Through an agent that connects by itself and is given the target with the command.
    Open,
    /// Through an agent that is asked for a data connection and greeted on it.
    Request,
    /// Through an agent that is not there.
    Offline,
    /// Directly.
    Direct,
}

/// The way to a target: by protocol version, by what there is of an agent, and by whether there
/// is to be one.
pub open spec fn route_of(
    protocol_version: u8,
    signal: bool,
    requests: bool,
    opens: bool,
    through_agent: bool,
) -> Route {
    if protocol_version == 2 {
        if signal && opens {
            Route::Open
        } else {
            Route::Offline
        }
    } else if signal && requests {
        Route::Request
    } else if through_agent {
        Route::Offline
    } else {
        Route::Direct
    }
}

/// The way to a target.
pub fn choose_route(
    protocol_version: u8,
    signal: bool,
    requests: bool,
    opens: bool,
    through_agent: bool,
) -> (res: Route)
    ensures
        res == route_of(protocol_version, signal, requests, opens, through_agent),
{
    if protocol_version == 2 {
        if signal && opens {
            Route::Open
        } else {
            Route::Offline
        }
    } else if signal && requests {
        Route::Request
    } else if through_agent {
        Route::Offline
    } else {
        Route::Direct
    }
}

/// The way to a target, by the protocol version of the agent's connection, where there is one.
pub open spec fn link_route_of(protocol_version: Option<u8>, through_agent: bool) -> Route {
    match protocol_version {
        Some(version) => route_of(version, true, true, true, through_agent),
        None => route_of(1, false, false, false, through_agent),
    }
}

/// The way to a target, by the protocol version of the agent's connection, where there is one.
pub fn link_route(protocol_version: Option<u8>, through_agent: bool) -> (res: Route)
    ensures
        res == link_route_of(protocol_version, through_agent),
{
    match protocol_version {
        Some(version) => choose_route(version, true, true, true, through_agent),
        None => choose_route(1, false, false, false, through_agent),
    }
}

/// Where an attempt stands.
#[derive(Clone, Copy, Debug)]
pub enum OpenPhase {
    /// Nothing was done.
    Start,
    /// A free number is looked for; this many were drawn.
    Drawing { tries: u32 },
    /// The agent is sent the request's number.
    SendingRequest { id: u32 },
    /// The agent's data connection for the request is awaited.
    AwaitingRequest { id: u32 },
    /// The agent is greeted on its data connection.
    Greeting,
    /// The agent is sent the token and the target.
    SendingOpen { token: [u8; 16] },
    /// The agent's data connection with the token is awaited.
    AwaitingOpen { token: [u8; 16] },
    /// The target is dialled directly.
    Dialing,
    /// There is an outcome.
    Over,
}

/// What happened outside.
#[derive(Debug)]
pub enum OpenEvent {
    /// The attempt begins.
    Begin { resetting: bool },
    /// Random bytes were drawn, where there are any.
    Random { bytes: Option<[u8; 32]>, resetting: bool },
    /// The command was sent, or could not be.
    Sent(bool),
    /// The data connection came.
    Connected,
    /// The agent reports that it cannot reach the target.
    Unreachable,
    /// The data channel was dropped.
    Dropped,
    /// The data connection did not come in time.
    TimedOut,
    /// These are all the bytes that came over the data connection.
    Received(Vec<u8>),
    /// The target was dialled.
    Dialed,
    /// The connection failed.
    IoFailed,
}

/// What is to be done next.
#[derive(Debug)]
pub enum OpenAction {
    /// Draw random bytes.
    Draw,
    /// Send the agent a command.
    Send(TunnelCmd),
    /// Wait for the data connection, for ten seconds.
    Await,
    /// Send these bytes over the data connection, and wait for this many.
    Talk { write: Vec<u8>, read: usize },
    /// Connect to the target.
    Dial,
    /// The connection is there.
    Ready,
    /// There is none.
    Fail(ConnectError),
}

/// `OpenAction`, with texts and bytes by their contents.
pub enum OpenActionView {
    Draw,
    SendRequest(u32),
    SendOpen([u8; 16], Seq<u8>),
    SendOther,
    Await,
    Talk(Seq<u8>, usize),
    Dial,
    Ready,
    Fail(ConnectError),
}

impl OpenAction {
    /// The action by its contents.
    pub open spec fn view(&self) -> OpenActionView {
        match self {
            OpenAction::Draw => OpenActionView::Draw,
            OpenAction::Send(TunnelCmd::RequireConn(id)) => OpenActionView::SendRequest(*id),
            OpenAction::Send(TunnelCmd::Open { token, target }) => OpenActionView::SendOpen(
                *token,
                target@,
            ),
            OpenAction::Send(_) => OpenActionView::SendOther,
            OpenAction::Await => OpenActionView::Await,
            OpenAction::Talk { write, read } => OpenActionView::Talk(write@, *read),
            OpenAction::Dial => OpenActionView::Dial,
            OpenAction::Ready => OpenActionView::Ready,
            OpenAction::Fail(error) => OpenActionView::Fail(*error),
        }
    }
}

/// An attempt to open a connection.
#[derive(Debug)]
pub struct OpenTarget {
    pub target: String,
    pub route: Route,
    /// The handle of whoever waits for the data connection.
    pub waiter: u64,
    pub phase: OpenPhase,
}

/// What an attempt works on: where it stands, and who waits at its agent.
pub struct OpenWorld {
    pub phase: OpenPhase,
    pub requests: Map<u32, u64>,
    pub opens: Map<[u8; 16], u64>,
}

/// The token that random bytes give: their first sixteen.
pub open spec fn token_of(b: [u8; 32]) -> [u8; 16] {
    [
        b[0],
        b[1],
        b[2],
        b[3],
        b[4],
        b[5],
        b[6],
        b[7],
        b[8],
        b[9],
        b[10],
        b[11],
        b[12],
        b[13],
        b[14],
        b[15],
    ]
}

/// The request number that random bytes give: their first four.
pub open spec fn request_id_of(b: [u8; 32]) -> u32 {
    net::from_be32(b[0], b[1], b[2], b[3])
}

/// The outcome of an attempt that fails.
pub open spec fn failed(world: OpenWorld, error: ConnectError) -> (OpenWorld, OpenActionView) {
    (OpenWorld { phase: OpenPhase::Over, ..world }, OpenActionView::Fail(error))
}

/// The outcome of an attempt whose agent cannot be used.
pub open spec fn agent_failed(world: OpenWorld, fault: AgentFault) -> (OpenWorld, OpenActionView) {
    failed(world, ConnectError::AgentUnavailable(fault))
}

/// How an attempt begins.
pub open spec fn begun(world: OpenWorld, route: Route, resetting: bool) -> (
    OpenWorld,
    OpenActionView,
) {
    match route {
        Route::Offline => agent_failed(world, AgentFault::Offline),
        Route::Direct => (
            OpenWorld { phase: OpenPhase::Dialing, ..world },
            OpenActionView::Dial,
        ),
        _ => if resetting {
            agent_failed(world, AgentFault::Resetting)
        } else {
            (OpenWorld { phase: OpenPhase::Drawing { tries: 0 }, ..world }, OpenActionView::Draw)
        },
    }
}

/// What a drawn number leads to where it is taken: another one, unless there were too many.
pub open spec fn drawn_taken(world: OpenWorld, route: Route, tries: u32) -> (
    OpenWorld,
    OpenActionView,
) {
    if tries + 1 >= MAX_DRAWS {
        agent_failed(
            world,
            if route == Route::Open {
                AgentFault::NoToken
            } else {
                AgentFault::NoRequestId
            },
        )
    } else {
        (
            OpenWorld { phase: OpenPhase::Drawing { tries: (tries + 1) as u32 }, ..world },
            OpenActionView::Draw,
        )
    }
}

/// What drawn bytes lead to. A number that is free is taken for the waiter.
pub open spec fn drawn(
    world: OpenWorld,
    route: Route,
    target: Seq<char>,
    waiter: u64,
    tries: u32,
    bytes: [u8; 32],
    resetting: bool,
) -> (OpenWorld, OpenActionView) {
    if route == Route::Open {
        let token = token_of(bytes);
        if world.opens.contains_key(token) {
            drawn_taken(world, route, tries)
        } else {
            let taken = OpenWorld { opens: world.opens.insert(token, waiter), ..world };
            match socks5::target_bytes(target) {
                Ok(encoded) => (
                    OpenWorld { phase: OpenPhase::SendingOpen { token }, ..taken },
                    OpenActionView::SendOpen(token, encoded),
                ),
                Err(error) => failed(taken, ConnectError::Target(TargetFault::Address(error))),
            }
        }
    } else {
        let id = request_id_of(bytes);
        if world.requests.contains_key(id) {
            drawn_taken(world, route, tries)
        } else if resetting {
            agent_failed(world, AgentFault::Resetting)
        } else {
            (
                OpenWorld {
                    phase: OpenPhase::SendingRequest { id },
                    requests: world.requests.insert(id, waiter),
                    ..world
                },
                OpenActionView::SendRequest(id),
            )
        }
    }
}

/// The bytes with which an agent is greeted and asked to connect.
pub open spec fn agent_request(target: Seq<char>) -> Result<Seq<u8>, TargetError> {
    match socks5::connect_packet(target) {
        Ok(packet) => Ok(seq![socks5::SOCKS_VERSION, 0x01u8, 0x00u8] + packet),
        Err(error) => Err(error),
    }
}

/// What an agent's data connection leads to.
pub open spec fn connected(world: OpenWorld, target: Seq<char>) -> (OpenWorld, OpenActionView) {
    match agent_request(target) {
        Ok(request) => (
            OpenWorld { phase: OpenPhase::Greeting, ..world },
            OpenActionView::Talk(request, 2),
        ),
        Err(error) => failed(world, ConnectError::Target(TargetFault::Address(error))),
    }
}

/// What the bytes from an agent lead to: it must accept the greeting, and then report that it is
/// connected.
pub open spec fn answered(world: OpenWorld, b: Seq<u8>) -> (OpenWorld, OpenActionView) {
    if b.len() < 2 {
        (world, OpenActionView::Talk(seq![], (2 - b.len()) as usize))
    } else if b[0] != socks5::SOCKS_VERSION || b[1] != 0x00 {
        agent_failed(world, AgentFault::Refused(b[0], b[1]))
    } else {
        match socks5::packet_of(b.skip(2)) {
            Progress::More(n) => (world, OpenActionView::Talk(seq![], n)),
            Progress::Failed(error) => agent_failed(world, AgentFault::Reply(error)),
            Progress::Done { value: (rep, _), used } => if rep == 0x00 {
                (OpenWorld { phase: OpenPhase::Over, ..world }, OpenActionView::Ready)
            } else {
                failed(world, ConnectError::Target(TargetFault::Reported(rep)))
            },
        }
    }
}

/// What an event leads to. Who waited for a data connection that does not come waits no longer.
/// Whatever else happens is a failure of the agent's connection.
pub open spec fn open_outcome(
    world: OpenWorld,
    route: Route,
    target: Seq<char>,
    waiter: u64,
    event: OpenEvent,
) -> (OpenWorld, OpenActionView) {
    match (world.phase, event) {
        (OpenPhase::Start, OpenEvent::Begin { resetting }) => begun(world, route, resetting),
        (OpenPhase::Drawing { tries }, OpenEvent::Random { bytes, resetting }) => match bytes {
            Some(bytes) => drawn(world, route, target, waiter, tries, bytes, resetting),
            None => agent_failed(world, AgentFault::NoRandom),
        },
        (OpenPhase::SendingRequest { id }, OpenEvent::Sent(sent)) => if sent {
            (
                OpenWorld { phase: OpenPhase::AwaitingRequest { id }, ..world },
                OpenActionView::Await,
            )
        } else {
            agent_failed(
                OpenWorld { requests: world.requests.remove(id), ..world },
                AgentFault::NotSent,
            )
        },
        (OpenPhase::AwaitingRequest { id }, OpenEvent::Connected) => connected(world, target),
        (OpenPhase::AwaitingRequest { id }, OpenEvent::Dropped) => agent_failed(
            OpenWorld { requests: world.requests.remove(id), ..world },
            AgentFault::Dropped(Some(id)),
        ),
        (OpenPhase::AwaitingRequest { id }, OpenEvent::TimedOut) => agent_failed(
            OpenWorld { requests: world.requests.remove(id), ..world },
            AgentFault::TimedOut(Some(id)),
        ),
        (OpenPhase::Greeting, OpenEvent::Received(b)) => answered(world, b@),
        (OpenPhase::SendingOpen { token }, OpenEvent::Sent(sent)) => if sent {
            (
                OpenWorld { phase: OpenPhase::AwaitingOpen { token }, ..world },
                OpenActionView::Await,
            )
        } else {
            agent_failed(
                OpenWorld { opens: world.opens.remove(token), ..world },
                AgentFault::NotSent,
            )
        },
        (OpenPhase::AwaitingOpen { token }, OpenEvent::Connected) => (
            OpenWorld { phase: OpenPhase::Over, ..world },
            OpenActionView::Ready,
        ),
        (OpenPhase::AwaitingOpen { token }, OpenEvent::Unreachable) => failed(
            OpenWorld { opens: world.opens.remove(token), ..world },
            ConnectError::Target(TargetFault::Unreachable),
        ),
        (OpenPhase::AwaitingOpen { token }, OpenEvent::Dropped) => agent_failed(
            OpenWorld { opens: world.opens.remove(token), ..world },
            AgentFault::Dropped(None),
        ),
        (OpenPhase::AwaitingOpen { token }, OpenEvent::TimedOut) => agent_failed(
            OpenWorld { opens: world.opens.remove(token), ..world },
            AgentFault::TimedOut(None),
        ),
        (OpenPhase::Dialing, OpenEvent::Dialed) => (
            OpenWorld { phase: OpenPhase::Over, ..world },
            OpenActionView::Ready,
        ),
        (OpenPhase::Dialing, OpenEvent::IoFailed) => failed(
            world,
            ConnectError::Target(TargetFault::Io),
        ),
        _ => agent_failed(world, AgentFault::Io),
    }
}

/// The token that random bytes give.
fn draw_token(b: &[u8; 32]) -> (res: [u8; 16])
    ensures
        res == token_of(*b),
{
    [
        b[0],
        b[1],
        b[2],
        b[3],
        b[4],
        b[5],
        b[6],
        b[7],
        b[8],
        b[9],
        b[10],
        b[11],
        b[12],
        b[13],
        b[14],
        b[15],
    ]
}

/// Takes the request number that random bytes give for a waiter, where it is free.
pub fn reserve_request_id(
    requests: &mut dashmap::DashMap<u32, u64>,
    bytes: &[u8; 32],
    waiter: u64,
) -> (res: Option<u32>)
    ensures
        ({
            let id = request_id_of(*bytes);
            let before = registry::requests(*old(requests));
            if before.contains_key(id) {
                res is None && registry::requests(*final(requests)) == before
            } else {
                res == Some(id) && registry::requests(*final(requests)) == before.insert(
                    id,
                    waiter,
                )
            }
        }),
{
    let id: u32 = net::join_be32(bytes[0], bytes[1], bytes[2], bytes[3]);
    if registry::requests_contain(requests, id) {
        None
    } else {
        registry::requests_insert(requests, id, waiter);
        Some(id)
    }
}

/// Takes the token that random bytes give for a waiter, where it is free.
pub fn reserve_open_token(
    opens: &mut dashmap::DashMap<[u8; 16], u64>,
    bytes: &[u8; 32],
    waiter: u64,
) -> (res: Option<[u8; 16]>)
    ensures
        ({
            let token = token_of(*bytes);
            let before = registry::opens(*old(opens));
            if before.contains_key(token) {
                res is None && registry::opens(*final(opens)) == before
            } else {
                res == Some(token) && registry::opens(*final(opens)) == before.insert(
                    token,
                    waiter,
                )
            }
        }),
{
    let token: [u8; 16] = draw_token(bytes);
    if registry::opens_contain(opens, &token) {
        None
    } else {
        registry::opens_insert(opens, token, waiter);
        Some(token)
    }
}

impl OpenTarget {
    /// An attempt at which nothing was done yet.
    pub fn new(target: String, route: Route, waiter: u64) -> (res: OpenTarget)
        ensures
            res == (OpenTarget { target, route, waiter, phase: OpenPhase::Start }),
    {
        OpenTarget { target, route, waiter, phase: OpenPhase::Start }
    }

    /// What the attempt works on, with those who wait at its agent.
    pub open spec fn world(
        self,
        requests: dashmap::DashMap<u32, u64>,
        opens: dashmap::DashMap<[u8; 16], u64>,
    ) -> OpenWorld {
        OpenWorld {
            phase: self.phase,
            requests: registry::requests(requests),
            opens: registry::opens(opens),
        }
    }

    /// Ends the attempt without a connection.
    fn fail(&mut self, error: ConnectError) -> (res: OpenAction)
        ensures
            *final(self) == (OpenTarget { phase: OpenPhase::Over, ..*old(self) }),
            res == OpenAction::Fail(error),
    {
        self.phase = OpenPhase::Over;
        OpenAction::Fail(error)
    }

    /// Draws again, unless there were too many draws.
    fn draw_again(&mut self, tries: u32) -> (res: OpenAction)
        requires
            tries < u32::MAX,
        ensures
            final(self).target == old(self).target,
            final(self).route == old(self).route,
            final(self).waiter == old(self).waiter,
            forall|world: OpenWorld| #[trigger]
                drawn_taken(world, old(self).route, tries) == (
                    OpenWorld { phase: final(self).phase, ..world },
                    res@,
                ),
    {
        if tries + 1 >= MAX_DRAWS {
            let fault: AgentFault = if self.route == Route::Open {
                AgentFault::NoToken
            } else {
                AgentFault::NoRequestId
            };
            self.fail(ConnectError::AgentUnavailable(fault))
        } else {
            self.phase = OpenPhase::Drawing { tries: tries + 1 };
            OpenAction::Draw
        }
    }

    /// Takes drawn bytes.
    fn take_draw(
        &mut self,
        tries: u32,
        bytes: &[u8; 32],
        resetting: bool,
        requests: &mut dashmap::DashMap<u32, u64>,
        opens: &mut dashmap::DashMap<[u8; 16], u64>,
    ) -> (res: OpenAction)
        requires
            tries < u32::MAX,
        ensures
            final(self).target == old(self).target,
            final(self).route == old(self).route,
            final(self).waiter == old(self).waiter,
            drawn(
                old(self).world(*old(requests), *old(opens)),
                old(self).route,
                old(self).target@,
                old(self).waiter,
                tries,
                *bytes,
                resetting,
            ) == (final(self).world(*final(requests), *final(opens)), res@),
    {
        let ghost before = self.world(*requests, *opens);
        if self.route == Route::Open {
            match reserve_open_token(opens, bytes, self.waiter) {
                Some(token) => match socks5::encode_target_address(self.target.as_str()) {
                    Ok(target) => {
                        self.phase = OpenPhase::SendingOpen { token };
                        OpenAction::Send(TunnelCmd::Open { token, target })
                    },
                    Err(error) => self.fail(ConnectError::Target(TargetFault::Address(error))),
                },
                None => {
                    assert(self.world(*requests, *opens) == before);
                    let ghost outcome = drawn_taken(before, self.route, tries);
                    self.draw_again(tries)
                },
            }
        } else {
            match reserve_request_id(requests, bytes, self.waiter) {
                Some(id) => {
                    if resetting {
                        let _ = registry::requests_remove(requests, id);
                        assert(registry::requests(*requests) =~= before.requests);
                        self.fail(ConnectError::AgentUnavailable(AgentFault::Resetting))
                    } else {
                        self.phase = OpenPhase::SendingRequest { id };
                        OpenAction::Send(TunnelCmd::RequireConn(id))
                    }
                },
                None => {
                    let ghost outcome = drawn_taken(before, self.route, tries);
                    self.draw_again(tries)
                },
            }
        }
    }

    /// Greets the agent on its data connection.
    fn greet(&mut self) -> (res: OpenAction)
        ensures
            final(self).target == old(self).target,
            final(self).route == old(self).route,
            final(self).waiter == old(self).waiter,
            forall|world: OpenWorld| #[trigger]
                connected(world, old(self).target@) == (
                    OpenWorld { phase: final(self).phase, ..world },
                    res@,
                ),
    {
        match socks5::build_connect_packet(self.target.as_str()) {
            Ok(packet) => {
                let mut write: Vec<u8> = Vec::new();
                write.push(socks5::SOCKS_VERSION);
                write.push(0x01);
                write.push(0x00);
                write.extend_from_slice(packet.as_slice());
                assert(write@ =~= seq![socks5::SOCKS_VERSION, 0x01u8, 0x00u8] + packet@);
                self.phase = OpenPhase::Greeting;
                OpenAction::Talk { write, read: 2 }
            },
            Err(error) => self.fail(ConnectError::Target(TargetFault::Address(error))),
        }
    }

    /// Takes all the bytes that the agent has sent on its data connection.
    fn take_answer(&mut self, b: &[u8]) -> (res: OpenAction)
        ensures
            final(self).target == old(self).target,
            final(self).route == old(self).route,
            final(self).waiter == old(self).waiter,
            forall|world: OpenWorld|
                world.phase == old(self).phase ==> #[trigger] answered(world, b@) == (
                    OpenWorld { phase: final(self).phase, ..world },
                    res@,
                ),
    {
        let len: usize = b.len();
        let none: Vec<u8> = Vec::new();
        assert(none@ =~= seq![]);
        if len < 2 {
            return OpenAction::Talk { write: none, read: 2 - len };
        }
        if b[0] != socks5::SOCKS_VERSION || b[1] != 0x00 {
            return self.fail(ConnectError::AgentUnavailable(AgentFault::Refused(b[0], b[1])));
        }
        let rest = slice_subrange(b, 2, len);
        assert(rest@ =~= b@.skip(2));
        match socks5::read_packet(rest) {
            Progress::More(n) => OpenAction::Talk { write: none, read: n },
            Progress::Failed(error) => self.fail(
                ConnectError::AgentUnavailable(AgentFault::Reply(error)),
            ),
            Progress::Done { value: (rep, _), used: _ } => {
                if rep == 0x00 {
                    self.phase = OpenPhase::Over;
                    OpenAction::Ready
                } else {
                    self.fail(ConnectError::Target(TargetFault::Reported(rep)))
                }
            },
        }
    }

    /// Takes an event: what is to be done next, and who waits at the agent from then on.
    pub fn open_target(
        &mut self,
        event: OpenEvent,
        requests: &mut dashmap::DashMap<u32, u64>,
        opens: &mut dashmap::DashMap<[u8; 16], u64>,
    ) -> (res: OpenAction)
        requires
            old(self).phase matches OpenPhase::Drawing { tries } ==> tries < MAX_DRAWS,
        ensures
            final(self).phase matches OpenPhase::Drawing { tries } ==> tries < MAX_DRAWS,
            final(self).target == old(self).target,
            final(self).route == old(self).route,
            final(self).waiter == old(self).waiter,
            open_outcome(
                old(self).world(*old(requests), *old(opens)),
                old(self).route,
                old(self).target@,
                old(self).waiter,
                event,
            ) == (final(self).world(*final(requests), *final(opens)), res@),
    {
        match (self.phase, event) {
            (OpenPhase::Start, OpenEvent::Begin { resetting }) => match self.route {
                Route::Offline => self.fail(ConnectError::AgentUnavailable(AgentFault::Offline)),
                Route::Direct => {
                    self.phase = OpenPhase::Dialing;
                    OpenAction::Dial
                },
                _ => {
                    if resetting {
                        self.fail(ConnectError::AgentUnavailable(AgentFault::Resetting))
                    } else {
                        self.phase = OpenPhase::Drawing { tries: 0 };
                        OpenAction::Draw
                    }
                },
            },
            (OpenPhase::Drawing { tries }, OpenEvent::Random { bytes, resetting }) => match bytes {
                Some(bytes) => self.take_draw(tries, &bytes, resetting, requests, opens),
                None => self.fail(ConnectError::AgentUnavailable(AgentFault::NoRandom)),
            },
            (OpenPhase::SendingRequest { id }, OpenEvent::Sent(sent)) => {
                if sent {
                    self.phase = OpenPhase::AwaitingRequest { id };
                    OpenAction::Await
                } else {
                    let _ = registry::requests_remove(requests, id);
                    self.fail(ConnectError::AgentUnavailable(AgentFault::NotSent))
                }
            },
            (OpenPhase::AwaitingRequest { id: _ }, OpenEvent::Connected) => {
                let ghost before = self.world(*requests, *opens);
                let ghost outcome = connected(before, self.target@);
                self.greet()
            },
            (OpenPhase::AwaitingRequest { id }, OpenEvent::Dropped) => {
                let _ = registry::requests_remove(requests, id);
                self.fail(ConnectError::AgentUnavailable(AgentFault::Dropped(Some(id))))
            },
            (OpenPhase::AwaitingRequest { id }, OpenEvent::TimedOut) => {
                let _ = registry::requests_remove(requests, id);
                self.fail(ConnectError::AgentUnavailable(AgentFault::TimedOut(Some(id))))
            },
            (OpenPhase::Greeting, OpenEvent::Received(b)) => {
                let ghost before = self.world(*requests, *opens);
                let ghost outcome = answered(before, b@);
                self.take_answer(b.as_slice())
            },
            (OpenPhase::SendingOpen { token }, OpenEvent::Sent(sent)) => {
                if sent {
                    self.phase = OpenPhase::AwaitingOpen { token };
                    OpenAction::Await
                } else {
                    let _ = registry::opens_remove(opens, &token);
                    self.fail(ConnectError::AgentUnavailable(AgentFault::NotSent))
                }
            },
            (OpenPhase::AwaitingOpen { token: _ }, OpenEvent::Connected) => {
                self.phase = OpenPhase::Over;
                OpenAction::Ready
            },
            (OpenPhase::AwaitingOpen { token }, OpenEvent::Unreachable) => {
                let _ = registry::opens_remove(opens, &token);
                self.fail(ConnectError::Target(TargetFault::Unreachable))
            },
            (OpenPhase::AwaitingOpen { token }, OpenEvent::Dropped) => {
                let _ = registry::opens_remove(opens, &token);
                self.fail(ConnectError::AgentUnavailable(AgentFault::Dropped(None)))
            },
            (OpenPhase::AwaitingOpen { token }, OpenEvent::TimedOut) => {
                let _ = registry::opens_remove(opens, &token);
                self.fail(ConnectError::AgentUnavailable(AgentFault::TimedOut(None)))
            },
            (OpenPhase::Dialing, OpenEvent::Dialed) => {
                self.phase = OpenPhase::Over;
                OpenAction::Ready
            },
            (OpenPhase::Dialing, OpenEvent::IoFailed) => self.fail(
                ConnectError::Target(TargetFault::Io),
            ),
            _ => self.fail(ConnectError::AgentUnavailable(AgentFault::Io)),
        }
    }
}

/// What it comes to where a connection that is there cannot be told to send at once: a fault of
/// the target where it was dialled, and of the agent where the agent was greeted on it. A
/// connection that an agent opened by itself is not told anything.
pub open spec fn setup_fault(route: Route) -> Option<ConnectError> {
    match route {
        Route::Direct => Some(ConnectError::Target(TargetFault::Setup)),
        Route::Request => Some(ConnectError::AgentUnavailable(AgentFault::Io)),
        _ => None,
    }
}

/// What it comes to where a connection that is there cannot be told to send at once.
pub fn setup_error(route: Route) -> (res: Option<ConnectError>)
    ensures
        res == setup_fault(route),
{
    match route {
        Route::Direct => Some(ConnectError::Target(TargetFault::Setup)),
        Route::Request => Some(ConnectError::AgentUnavailable(AgentFault::Io)),
        _ => None,
    }
}

/// The word by which a timing line tells how an attempt ended.
pub open spec fn outcome_word(error: Option<ConnectError>) -> Seq<char> {
    match error {
        None => "ok"@,
        Some(ConnectError::AgentUnavailable(_)) => "agent_offline"@,
        Some(ConnectError::Target(_)) => "error"@,
    }
}

/// What is logged of an attempt through an agent.
pub open spec fn timing_logged(
    agent: Seq<char>,
    port: u16,
    target: Seq<char>,
    data_conn_ms: u128,
    greeting_rtt_ms: u128,
    connect_reply_ms: u128,
    total_ms: u128,
    error: Option<ConnectError>,
) -> Seq<char> {
    socks5::timing_text(
        agent,
        port,
        target,
        data_conn_ms,
        greeting_rtt_ms,
        connect_reply_ms,
        total_ms,
        outcome_word(error),
    )
}

/// The timing line of an attempt, where it went through an agent.
pub fn log_connect_timing(
    agent: Option<&str>,
    port: u16,
    target: &str,
    data_conn_ms: u128,
    greeting_rtt_ms: u128,
    connect_reply_ms: u128,
    total_ms: u128,
    error: Option<ConnectError>,
) -> (res: Option<String>)
    ensures
        agent matches Some(agent) ==> (res matches Some(line) && line@ == timing_logged(
            agent@,
            port,
            target@,
            data_conn_ms,
            greeting_rtt_ms,
            connect_reply_ms,
            total_ms,
            error,
        )),
        match (agent, res) {
            (Some(agent), Some(line)) => line@ == socks5::timing_text(
                agent@,
                port,
                target@,
                data_conn_ms,
                greeting_rtt_ms,
                connect_reply_ms,
                total_ms,
                outcome_word(error),
            ),
            (None, None) => true,
            _ => false,
        },
{
    let word: &str = match error {
        None => "ok",
        Some(ConnectError::AgentUnavailable(_)) => "agent_offline",
        Some(ConnectError::Target(_)) => "error",
    };
    match agent {
        Some(agent) => Some(
            socks5::timing_line(
                agent,
                port,
                target,
                data_conn_ms,
                greeting_rtt_ms,
                connect_reply_ms,
                total_ms,
                word,
            ),
        ),
        None => None,
    }
}

/// Whether an attempt has told the agent of this request.
pub open spec fn holds_request(phase: OpenPhase, id: u32) -> bool {
    phase == (OpenPhase::SendingRequest { id }) || phase == (OpenPhase::AwaitingRequest { id })
}

/// Whether an attempt has told the agent of this token.
pub open spec fn holds_token(phase: OpenPhase, token: [u8; 16]) -> bool {
    phase == (OpenPhase::SendingOpen { token }) || phase == (OpenPhase::AwaitingOpen { token })
}

/// An attempt never disturbs another: whoever else waits at the agent goes on waiting.
pub proof fn law_other_waiters_are_left_alone(
    world: OpenWorld,
    route: Route,
    target: Seq<char>,
    waiter: u64,
    event: OpenEvent,
)
    ensures
        ({
            let after = open_outcome(world, route, target, waiter, event).0;
            &&& forall|id: u32| #[trigger]
                world.requests.contains_key(id) && !holds_request(world.phase, id)
                    ==> after.requests.contains_key(id) && after.requests[id]
                    == world.requests[id]
            &&& forall|token: [u8; 16]| #[trigger]
                world.opens.contains_key(token) && !holds_token(world.phase, token)
                    ==> after.opens.contains_key(token) && after.opens[token] == world.opens[token]
        }),
{
}

/// Whether an event says that no data connection comes of a command.
pub open spec fn comes_to_nothing(phase: OpenPhase, event: OpenEvent) -> bool {
    match phase {
        OpenPhase::SendingRequest { .. } => event == OpenEvent::Sent(false),
        OpenPhase::SendingOpen { .. } => event == OpenEvent::Sent(false),
        OpenPhase::AwaitingRequest { .. } => event is Dropped || event is TimedOut,
        OpenPhase::AwaitingOpen { .. } => event is Unreachable || event is Dropped || event
            is TimedOut,
        _ => false,
    }
}

/// An attempt whose command was not sent, or of which no data connection came, fails and leaves
/// nobody waiting.
pub proof fn law_no_waiter_is_left_behind(
    world: OpenWorld,
    route: Route,
    target: Seq<char>,
    waiter: u64,
    event: OpenEvent,
)
    requires
        comes_to_nothing(world.phase, event),
    ensures
        ({
            let (after, action) = open_outcome(world, route, target, waiter, event);
            &&& action is Fail
            &&& forall|id: u32| #[trigger]
                holds_request(world.phase, id) ==> !after.requests.contains_key(id)
            &&& forall|token: [u8; 16]| #[trigger]
                holds_token(world.phase, token) ==> !after.opens.contains_key(token)
        }),
{
}

/// While an agent changes its address, no command is sent to it for a new connection.
pub proof fn law_resetting_agent_gets_no_request(
    world: OpenWorld,
    route: Route,
    target: Seq<char>,
    waiter: u64,
)
    requires
        world.phase is Start,
    ensures
        route == Route::Open || route == Route::Request ==> open_outcome(
            world,
            route,
            target,
            waiter,
            OpenEvent::Begin { resetting: true },
        ) == agent_failed(world, AgentFault::Resetting),
{
}

// ---------------------------------------------------------------------------------------------
// What an attempt comes to
// ---------------------------------------------------------------------------------------------

/// Where an agent connects by itself, the data connection with the token is the connection: the
/// attempt is ready as soon as it comes. Where the agent says that it cannot reach the target,
/// the target is at fault; where nothing comes, the agent is.
pub proof fn law_open_is_ready_when_connected(
    world: OpenWorld,
    route: Route,
    target: Seq<char>,
    waiter: u64,
)
    requires
        world.phase is AwaitingOpen,
    ensures
        ({
            let (after, action) = open_outcome(world, route, target, waiter, OpenEvent::Connected);
            &&& action is Ready
            &&& after.phase is Over
            &&& after.requests == world.requests
            &&& after.opens == world.opens
        }),
        open_outcome(world, route, target, waiter, OpenEvent::Unreachable).1
            == OpenActionView::Fail(ConnectError::Target(TargetFault::Unreachable)),
        open_outcome(world, route, target, waiter, OpenEvent::Dropped).1 == OpenActionView::Fail(
            ConnectError::AgentUnavailable(AgentFault::Dropped(None)),
        ),
        open_outcome(world, route, target, waiter, OpenEvent::TimedOut).1 == OpenActionView::Fail(
            ConnectError::AgentUnavailable(AgentFault::TimedOut(None)),
        ),
{
}

/// Where an agent is greeted, its data connection is answered with `05 01 00`, the connect packet
/// of the target, and two bytes are read. A target that has no wire form is refused there.
pub proof fn law_request_is_greeted_when_connected(
    world: OpenWorld,
    route: Route,
    target: Seq<char>,
    waiter: u64,
)
    requires
        world.phase is AwaitingRequest,
    ensures
        ({
            let (after, action) = open_outcome(world, route, target, waiter, OpenEvent::Connected);
            &&& after.requests == world.requests
            &&& after.opens == world.opens
            &&& match socks5::target_bytes(target) {
                Ok(bytes) => after.phase is Greeting && action == OpenActionView::Talk(
                    seq![5u8, 1u8, 0u8, 5u8, 1u8, 0u8] + bytes,
                    2,
                ),
                Err(error) => after.phase is Over && action == OpenActionView::Fail(
                    ConnectError::Target(TargetFault::Address(error)),
                ),
            }
        }),
        world.phase matches OpenPhase::AwaitingRequest { id } ==> open_outcome(
            world,
            route,
            target,
            waiter,
            OpenEvent::Dropped,
        ).1 == OpenActionView::Fail(
            ConnectError::AgentUnavailable(AgentFault::Dropped(Some(id))),
        ) && open_outcome(world, route, target, waiter, OpenEvent::TimedOut).1
            == OpenActionView::Fail(
            ConnectError::AgentUnavailable(AgentFault::TimedOut(Some(id))),
        ),
{
    match socks5::target_bytes(target) {
        Ok(bytes) => {
            assert(seq![5u8, 1u8, 0u8] + (seq![5u8, 1u8, 0u8] + bytes) =~= seq![
                5u8,
                1u8,
                0u8,
                5u8,
                1u8,
                0u8,
            ] + bytes);
        },
        Err(_) => {},
    }
}

/// A greeted agent that answers `05 00` and then a reply makes the attempt ready exactly if the
/// reply's code is 0; with another code the target is at fault, and the code is told.
pub proof fn law_agents_reply_decides(
    world: OpenWorld,
    route: Route,
    target: Seq<char>,
    waiter: u64,
    rep: u8,
    reserved: u8,
    ip: net::Ipv4Addr,
    hi: u8,
    lo: u8,
    event: OpenEvent,
)
    requires
        world.phase is Greeting,
        event matches OpenEvent::Received(b) && b@ == seq![
            5u8,
            0u8,
            5u8,
            rep,
            reserved,
            1u8,
            ip.a,
            ip.b,
            ip.c,
            ip.d,
            hi,
            lo,
        ],
    ensures
        ({
            let (after, action) = open_outcome(world, route, target, waiter, event);
            &&& after.phase is Over
            &&& after.requests == world.requests
            &&& after.opens == world.opens
            &&& action == if rep == 0 {
                OpenActionView::Ready
            } else {
                OpenActionView::Fail(ConnectError::Target(TargetFault::Reported(rep)))
            }
        }),
{
    let b = match event {
        OpenEvent::Received(b) => b@,
        _ => seq![],
    };
    let reply = seq![5u8, rep, reserved, 1u8, ip.a, ip.b, ip.c, ip.d, hi, lo];
    assert(b.skip(2) =~= reply);
    assert(reply + Seq::<u8>::empty() =~= reply);
    let none = net::Ipv6Addr { s0: 0, s1: 0, s2: 0, s3: 0, s4: 0, s5: 0, s6: 0, s7: 0 };
    vstd::utf8::encode_utf8_decode_utf8(Seq::<char>::empty());
    assert(vstd::utf8::encode_utf8(Seq::<char>::empty()).len() == 0);
    socks5::law_packet_names_its_target(
        rep,
        reserved,
        ip,
        none,
        Seq::empty(),
        hi,
        lo,
        Seq::empty(),
    );
}

/// Whatever address the agent's reply holds, and whatever follows it: once a greeted agent has
/// sent `05 00` and a whole reply, the attempt is ready exactly if the reply's code is 0. Before
/// that it writes nothing more and asks for no more than the rest of the reply.
pub proof fn law_any_reply_decides(
    world: OpenWorld,
    route: Route,
    target: Seq<char>,
    waiter: u64,
    b: Seq<u8>,
    event: OpenEvent,
    k: int,
    part: OpenEvent,
)
    requires
        world.phase is Greeting,
        2 <= b.len() <= usize::MAX,
        b[0] == 5 && b[1] == 0,
        socks5::packet_of(b.skip(2)) matches Progress::Done { used, .. } && 0 <= k < 2 + used,
        event matches OpenEvent::Received(bytes) && bytes@ == b,
        part matches OpenEvent::Received(bytes) && bytes@ == b.take(k),
    ensures
        ({
            let (after, action) = open_outcome(world, route, target, waiter, event);
            &&& after.phase is Over
            &&& action == if b[3] == 0 {
                OpenActionView::Ready
            } else {
                OpenActionView::Fail(ConnectError::Target(TargetFault::Reported(b[3])))
            }
            &&& open_outcome(world, route, target, waiter, part).0 == world
            &&& open_outcome(world, route, target, waiter, part).1 matches OpenActionView::Talk(
                write,
                n,
            ) && write.len() == 0 && 1 <= n && k + n <= b.len()
        }),
{
    let s = b.skip(2);
    let c = b.take(k);
    if k >= 2 {
        assert(c[0] == b[0] && c[1] == b[1]);
        assert(c.skip(2) =~= s.take(k - 2));
        socks5::law_packet_asks_for_no_more_than_comes(s, k - 2);
    } else {
        socks5::law_packet_asks_for_no_more_than_comes(s, 0);
    }
    assert(s[1] == b[3]);
}

/// A greeted agent that does not answer `05 00` has refused, and the answer is told.
pub proof fn law_refusing_agent_is_told(
    world: OpenWorld,
    route: Route,
    target: Seq<char>,
    waiter: u64,
    event: OpenEvent,
)
    requires
        world.phase is Greeting,
        event matches OpenEvent::Received(b) && b@.len() >= 2 && (b@[0] != 5 || b@[1] != 0),
    ensures
        ({
            let b = match event {
                OpenEvent::Received(b) => b@,
                _ => seq![],
            };
            let (after, action) = open_outcome(world, route, target, waiter, event);
            &&& after.phase is Over
            &&& action == OpenActionView::Fail(
                ConnectError::AgentUnavailable(AgentFault::Refused(b[0], b[1])),
            )
        }),
{
}

/// Directly, the target is dialled: the attempt is ready when the connection stands, and the
/// target is at fault where it does not.
pub proof fn law_direct_attempt(world: OpenWorld, target: Seq<char>, waiter: u64, resetting: bool)
    requires
        world.phase is Start,
    ensures
        ({
            let (dialing, first) = open_outcome(
                world,
                Route::Direct,
                target,
                waiter,
                OpenEvent::Begin { resetting },
            );
            let (after, last) = open_outcome(
                dialing,
                Route::Direct,
                target,
                waiter,
                OpenEvent::Dialed,
            );
            &&& first is Dial
            &&& last is Ready
            &&& after == (OpenWorld { phase: OpenPhase::Over, ..world })
            &&& open_outcome(dialing, Route::Direct, target, waiter, OpenEvent::IoFailed).1
                == OpenActionView::Fail(ConnectError::Target(TargetFault::Io))
        }),
{
}

/// Through an agent that is not there no attempt is made.
pub proof fn law_offline_attempt(
    world: OpenWorld,
    target: Seq<char>,
    waiter: u64,
    resetting: bool,
)
    requires
        world.phase is Start,
    ensures
        open_outcome(world, Route::Offline, target, waiter, OpenEvent::Begin { resetting }) == (
            OpenWorld { phase: OpenPhase::Over, ..world },
            OpenActionView::Fail(ConnectError::AgentUnavailable(AgentFault::Offline)),
        ),
{
}

/// A whole attempt through an agent that connects by itself: the drawn token, whose sixteen bytes
/// are the first of the draw, gets the waiter and is sent with the target's wire form; then the
/// connection is awaited, and when it comes the attempt is ready.
pub proof fn law_open_attempt_succeeds(
    world: OpenWorld,
    target: Seq<char>,
    waiter: u64,
    bytes: [u8; 32],
    resetting: bool,
)
    requires
        world.phase is Start,
        socks5::target_bytes(target) is Ok,
        !world.opens.contains_key(token_of(bytes)),
    ensures
        ({
            let begin = OpenEvent::Begin { resetting: false };
            let random = OpenEvent::Random { bytes: Some(bytes), resetting };
            let (w1, a1) = open_outcome(world, Route::Open, target, waiter, begin);
            let (w2, a2) = open_outcome(w1, Route::Open, target, waiter, random);
            let (w3, a3) = open_outcome(w2, Route::Open, target, waiter, OpenEvent::Sent(true));
            let (w4, a4) = open_outcome(w3, Route::Open, target, waiter, OpenEvent::Connected);
            &&& a1 is Draw
            &&& a2 matches OpenActionView::SendOpen(token, encoded) && token@ == bytes@.take(16)
                && encoded == socks5::target_bytes(target)->Ok_0 && w2.opens == world.opens.insert(
                token,
                waiter,
            )
            &&& a3 is Await
            &&& a4 is Ready
            &&& w4.phase is Over
            &&& w4.opens == w2.opens
            &&& w4.requests == world.requests
        }),
{
    assert(token_of(bytes)@ =~= bytes@.take(16));
}

/// A whole attempt through an agent that is greeted: the drawn number, which the first four bytes
/// of the draw give, highest first, gets the waiter and is sent; then the connection is awaited
/// and greeted.
pub proof fn law_request_attempt_is_greeted(
    world: OpenWorld,
    target: Seq<char>,
    waiter: u64,
    bytes: [u8; 32],
)
    requires
        world.phase is Start,
        socks5::target_bytes(target) is Ok,
        !world.requests.contains_key(request_id_of(bytes)),
    ensures
        ({
            let begin = OpenEvent::Begin { resetting: false };
            let random = OpenEvent::Random { bytes: Some(bytes), resetting: false };
            let (w1, a1) = open_outcome(world, Route::Request, target, waiter, begin);
            let (w2, a2) = open_outcome(w1, Route::Request, target, waiter, random);
            let (w3, a3) = open_outcome(w2, Route::Request, target, waiter, OpenEvent::Sent(true));
            let (w4, a4) = open_outcome(w3, Route::Request, target, waiter, OpenEvent::Connected);
            &&& a1 is Draw
            &&& a2 matches OpenActionView::SendRequest(id) && id == bytes@[0] * 0x100_0000
                + bytes@[1] * 0x1_0000 + bytes@[2] * 0x100 + bytes@[3] && w2.requests
                == world.requests.insert(id, waiter)
            &&& a3 is Await
            &&& a4 is Talk
            &&& w4.phase is Greeting
            &&& w4.requests == w2.requests
            &&& w4.opens == world.opens
        }),
{
}

/// A draw whose number or token is taken changes no waiter: another is drawn, up to thirty-two in
/// all, and then the attempt fails. A draw without random bytes fails at once.
pub proof fn law_taken_draws_are_drawn_again(
    world: OpenWorld,
    route: Route,
    target: Seq<char>,
    waiter: u64,
    bytes: [u8; 32],
    resetting: bool,
    tries: u32,
)
    requires
        world.phase == (OpenPhase::Drawing { tries }),
        tries < 32,
        route == Route::Open && world.opens.contains_key(token_of(bytes)) || route
            == Route::Request && world.requests.contains_key(request_id_of(bytes)),
    ensures
        ({
            let (after, action) = open_outcome(
                world,
                route,
                target,
                waiter,
                OpenEvent::Random { bytes: Some(bytes), resetting },
            );
            &&& after.requests == world.requests
            &&& after.opens == world.opens
            &&& if tries < 31 {
                action is Draw && after.phase == (OpenPhase::Drawing { tries: (tries + 1) as u32 })
            } else {
                after.phase is Over && action == OpenActionView::Fail(
                    ConnectError::AgentUnavailable(
                        if route == Route::Open {
                            AgentFault::NoToken
                        } else {
                            AgentFault::NoRequestId
                        },
                    ),
                )
            }
            &&& open_outcome(
                world,
                route,
                target,
                waiter,
                OpenEvent::Random { bytes: None, resetting },
            ).1 == OpenActionView::Fail(ConnectError::AgentUnavailable(AgentFault::NoRandom))
        }),
{
}

/// An agent that begins to change its address while its request's number is drawn gets no
/// request, and no waiter is left.
pub proof fn law_reset_during_draw(
    world: OpenWorld,
    target: Seq<char>,
    waiter: u64,
    bytes: [u8; 32],
)
    requires
        world.phase is Drawing,
        !world.requests.contains_key(request_id_of(bytes)),
    ensures
        open_outcome(
            world,
            Route::Request,
            target,
            waiter,
            OpenEvent::Random { bytes: Some(bytes), resetting: true },
        ) == (
            OpenWorld { phase: OpenPhase::Over, ..world },
            OpenActionView::Fail(ConnectError::AgentUnavailable(AgentFault::Resetting)),
        ),
{
}

/// An agent that dialled in with version 2 connects by itself, every other one is greeted. Where
/// none is there the target is dialled directly, unless the port is an agent's.
pub proof fn law_route_to_take(protocol_version: Option<u8>, through_agent: bool)
    ensures
        protocol_version == Some(2u8) ==> link_route_of(protocol_version, through_agent)
            == Route::Open,
        protocol_version is Some && protocol_version != Some(2u8) ==> link_route_of(
            protocol_version,
            through_agent,
        ) == Route::Request,
        protocol_version is None ==> link_route_of(protocol_version, through_agent) == if
        through_agent {
            Route::Offline
        } else {
            Route::Direct
        },
{
}

/// A route is offered only with what it needs: no attempt goes through an agent without a channel
/// to it and a place for its waiters, and a port of an agent is never served directly.
pub proof fn law_route_has_what_it_needs(
    protocol_version: u8,
    signal: bool,
    requests: bool,
    opens: bool,
    through_agent: bool,
)
    ensures
        ({
            let route = route_of(protocol_version, signal, requests, opens, through_agent);
            &&& route == Route::Open <==> protocol_version == 2 && signal && opens
            &&& route == Route::Request <==> protocol_version != 2 && signal && requests
            &&& route == Route::Direct ==> !through_agent && protocol_version != 2
            &&& through_agent && !signal ==> route == Route::Offline
        }),
{
}

/// The timing log calls an attempt that succeeded "ok", one whose agent failed "agent_offline"
/// and one whose target failed "error": three different words.
pub proof fn law_outcomes_are_told_apart(agent: AgentFault, target: TargetFault)
    ensures
        ({
            let ok = outcome_word(None);
            let offline = outcome_word(Some(ConnectError::AgentUnavailable(agent)));
            let error = outcome_word(Some(ConnectError::Target(target)));
            ok == seq!['o', 'k'] && offline.len() == 13 && offline.take(5) == seq![
                'a',
                'g',
                'e',
                'n',
                't',
            ] && error == seq!['e', 'r', 'r', 'o', 'r']
        }),
{
    reveal_strlit("ok");
    reveal_strlit("agent_offline");
    reveal_strlit("error");
    assert("agent_offline"@.take(5) =~= seq!['a', 'g', 'e', 'n', 't']);
}

/// A connection that cannot be set up puts the blame where the attempt went: on the target where
/// it was dialled directly, on the agent where it was greeted.
pub proof fn law_setup_fault_blames(route: Route)
    ensures
        route == Route::Direct ==> setup_fault(route) == Some(
            ConnectError::Target(TargetFault::Setup),
        ),
        route == Route::Request ==> setup_fault(route) == Some(
            ConnectError::AgentUnavailable(AgentFault::Io),
        ),
        route == Route::Open || route == Route::Offline ==> setup_fault(route) is None,
{
}

/// What is logged of an attempt that failed names the fault.
pub proof fn law_faults_are_named(
    target: Seq<char>,
    received: Seq<u8>,
    cause: Seq<char>,
    id: u32,
    a: u8,
    b: u8,
)
    ensures
        ({
            let agent = |fault: AgentFault|
                error_words(ConnectError::AgentUnavailable(fault), target, received, cause);
            let other = |fault: TargetFault|
                error_words(ConnectError::Target(fault), target, received, cause);
            &&& agent(AgentFault::Offline) == "Agent is offline"@
            &&& agent(AgentFault::Resetting) == "Agent is resetting"@
            &&& agent(AgentFault::NoRandom) == cause
            &&& agent(AgentFault::NoRequestId) == "Could not reserve a tunnel request ID"@
            &&& agent(AgentFault::NoToken) == "Could not reserve a tunnel token"@
            &&& agent(AgentFault::NotSent) == "channel closed"@
            &&& agent(AgentFault::Dropped(Some(id))) == "Agent data channel dropped for request "@
                + text::decimal(id as nat)
            &&& agent(AgentFault::Dropped(None)) == "Agent data channel dropped"@
            &&& agent(AgentFault::TimedOut(Some(id)))
                == "Timeout waiting for agent data connection for request "@ + text::decimal(
                id as nat,
            )
            &&& agent(AgentFault::TimedOut(None)) == "Timeout waiting for agent data connection"@
            &&& agent(AgentFault::Io) == cause
            &&& agent(AgentFault::Refused(a, b)) == "Agent refused handshake: ["@ + text::decimal(
                a as nat,
            ) + ", "@ + text::decimal(b as nat) + "]"@
            &&& agent(AgentFault::Reply(PacketError::Version)) == "Invalid SOCKS version in packet"@
            &&& agent(AgentFault::Reply(PacketError::AddressType(a)))
                == "Unsupported address type: "@ + text::decimal(a as nat)
            &&& other(TargetFault::Address(TargetError::NoPort)) == "Invalid address format: "@
                + target
            &&& other(TargetFault::Unreachable) == "Agent could not reach target"@
            &&& other(TargetFault::Reported(a)) == "Agent reported error connecting to target: "@
                + text::decimal(a as nat)
            &&& other(TargetFault::Io) == "Failed to connect to target"@
            &&& other(TargetFault::Setup) == cause
        }),
{
}

/// A target that is no address is named by the part that is wrong: its host, which is what stands
/// before the last colon, or its port, which is what stands behind it.
pub proof fn law_wrong_targets_are_named(
    host: Seq<char>,
    port: Seq<char>,
    received: Seq<u8>,
    cause: Seq<char>,
)
    requires
        !port.contains(':'),
    ensures
        ({
            let target = host + seq![':'] + port;
            &&& error_words(
                ConnectError::Target(TargetFault::Address(TargetError::BadDomain)),
                target,
                received,
                cause,
            ) == "Invalid domain: "@ + host
            &&& text::number(port) is None || text::number(port)->0 > 65535 ==> error_words(
                ConnectError::Target(TargetFault::Address(TargetError::BadPort)),
                target,
                received,
                cause,
            ) == text::port_fault(port)
        }),
{
    let target = host + seq![':'] + port;
    text::lemma_last_position_bounds(target, ':');
    let colon = text::last_position(target, ':');
    assert(target[host.len() as int] == ':');
    assert(colon == host.len()) by {
        if colon > host.len() {
            assert(port[colon - host.len() - 1] == ':');
            assert(port.contains(':'));
        }
    }
    assert(target.take(colon) =~= host);
    assert(target.skip(colon + 1) =~= port);
}

/// The log of an attempt names its agent, its port, its target, each time behind its name and how
/// it ended.
pub proof fn law_attempts_are_logged(
    agent: Seq<char>,
    port: u16,
    target: Seq<char>,
    data_conn_ms: u128,
    greeting_rtt_ms: u128,
    connect_reply_ms: u128,
    total_ms: u128,
    fault: AgentFault,
)
    requires
        socks5::is_one_line(agent),
        socks5::is_one_line(target),
    ensures
        ({
            let head = "timing agent="@ + agent + " port="@ + text::decimal(port as nat)
                + " target="@ + target + " data_conn_ms="@ + text::decimal(data_conn_ms as nat)
                + " greeting_rtt_ms="@ + text::decimal(greeting_rtt_ms as nat)
                + " connect_reply_ms="@ + text::decimal(connect_reply_ms as nat) + " total_ms="@
                + text::decimal(total_ms as nat) + " result="@;
            &&& timing_logged(
                agent,
                port,
                target,
                data_conn_ms,
                greeting_rtt_ms,
                connect_reply_ms,
                total_ms,
                None,
            ) == head + "ok"@
            &&& timing_logged(
                agent,
                port,
                target,
                data_conn_ms,
                greeting_rtt_ms,
                connect_reply_ms,
                total_ms,
                Some(ConnectError::AgentUnavailable(fault)),
            ) == head + "agent_offline"@
        }),
{
    socks5::law_timing_names_its_times(
        agent,
        port,
        target,
        data_conn_ms,
        greeting_rtt_ms,
        connect_reply_ms,
        total_ms,
        "ok"@,
    );
    socks5::law_timing_names_its_times(
        agent,
        port,
        target,
        data_conn_ms,
        greeting_rtt_ms,
        connect_reply_ms,
        total_ms,
        "agent_offline"@,
    );
}

/// The host of an agent's reply is the one that stands behind its length, and what is wrong with
/// it is told of those bytes.
pub proof fn law_reply_host_is_found(
    lead: Seq<u8>,
    host: Seq<u8>,
    rest: Seq<u8>,
    target: Seq<char>,
    cause: Seq<char>,
)
    requires
        lead.len() == 6,
        host.len() <= 255,
    ensures
        ({
            let received = lead + seq![host.len() as u8] + host + rest;
            &&& reply_host(received) == host
            &&& !valid_utf8(host) ==> error_words(
                ConnectError::AgentUnavailable(AgentFault::Reply(PacketError::HostEncoding)),
                target,
                received,
                cause,
            ) == text::utf8_fault(host)
        }),
{
    let received = lead + seq![host.len() as u8] + host + rest;
    assert(received[6] == host.len());
    assert(received.subrange(7, 7 + host.len() as int) =~= host);
}

} // verus!
