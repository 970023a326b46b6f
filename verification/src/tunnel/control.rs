//! The server's side of the tunnel: agents that dial in, their control connections, and the data
//! connections that they open.
use vstd::prelude::*;
use vstd::slice::{slice_subrange, slice_to_vec};
use vstd::utf8::{decode_utf8, valid_utf8};

use crate::address_text;
use crate::net::{self, IpAddr, SocketAddr};
use crate::progress::{missing, Progress};
use crate::registry;
use crate::security::{self, SecurityManager};
use crate::session;
use crate::socks5::client::{self, Report};
use crate::text;
use crate::tunnel::gone::{left_of, GoneConnection, GoneConnections};
use crate::tunnel::{AgentEntry, ResetWaiter};
use crate::tunnel_common::TunnelCmd;

verus! {

pub const CMD_REQUIRE_CONN: u8 = 0x01;

pub const CMD_UDP_SESSION: u8 = 0x03;

pub const CMD_RESET_IP: u8 = 0x04;

pub const CMD_PING: u8 = 0x06;

pub const CMD_OPEN: u8 = 0x10;

pub const CMD_STATUS: u8 = 0x11;

pub const V2_DATA_CONNECTION: u8 = 0x02;

pub const V2_STATUS_OK: u8 = 0x00;

pub const V2_STATUS_BLOCKED: u8 = 0x02;

pub const V2_STATUS_UNREACHABLE: u8 = 0x04;

/// The longest device report that is taken.
pub const MAX_STATUS_BYTES: usize = 1024;

/// How long a side may be silent: 25 seconds, in nanoseconds.
pub const AGENT_IDLE_TIMEOUT: u64 = 25_000_000_000;

// ---------------------------------------------------------------------------------------------
// Kinds of connections
// ---------------------------------------------------------------------------------------------

/// What an agent opened a connection for.
#[derive(Clone, Copy, Debug, PartialEq, Eq, Structural)]
pub enum ConnectionKind {
    /// A control connection in the clear.
    Control,
    /// A data connection for a request.
    Data,
    /// A control connection over TLS.
    TlsControl,
    /// A data connection for a token.
    TokenData,
    Unknown,
}

/// What a connection is for, by its first byte.
pub open spec fn kind_of(first: u8) -> ConnectionKind {
    match first {
        0x00 => ConnectionKind::Control,
        0x01 => ConnectionKind::Data,
        0x02 => ConnectionKind::TokenData,
        0x16 => ConnectionKind::TlsControl,
        _ => ConnectionKind::Unknown,
    }
}

/// What a connection is for, by its first byte. That byte belongs to the message behind it only
/// where TLS starts with it.
pub fn connection_kind(first: u8) -> (res: ConnectionKind)
    ensures
        res == kind_of(first),
        res == (if first == 0x00 {
            ConnectionKind::Control
        } else if first == 0x01 {
            ConnectionKind::Data
        } else if first == 0x16 {
            ConnectionKind::TlsControl
        } else if first == V2_DATA_CONNECTION {
            ConnectionKind::TokenData
        } else {
            ConnectionKind::Unknown
        }),
{
    if first == 0x00 {
        ConnectionKind::Control
    } else if first == 0x01 {
        ConnectionKind::Data
    } else if first == 0x16 {
        ConnectionKind::TlsControl
    } else if first == V2_DATA_CONNECTION {
        ConnectionKind::TokenData
    } else {
        ConnectionKind::Unknown
    }
}

/// What a proxy client speaks.
#[derive(Clone, Copy, Debug, PartialEq, Eq, Structural)]
pub enum ProxyKind {
    Socks,
    Http,
    Neither,
}

/// What a proxy client speaks, by its first byte.
pub open spec fn proxy_of(first: u8) -> ProxyKind {
    if first == 5 {
        ProxyKind::Socks
    } else if 65 <= first <= 90 || 97 <= first <= 122 {
        ProxyKind::Http
    } else {
        ProxyKind::Neither
    }
}

/// What a proxy client speaks, by its first byte: SOCKS starts with its version, and HTTP with a
/// letter.
pub fn proxy_kind(first: u8) -> (res: ProxyKind)
    ensures
        res == proxy_of(first),
        res == (if first == 0x05 {
            ProxyKind::Socks
        } else if 0x41 <= first <= 0x5a || 0x61 <= first <= 0x7a {
            ProxyKind::Http
        } else {
            ProxyKind::Neither
        }),
{
    if first == 0x05 {
        ProxyKind::Socks
    } else if (0x41 <= first && first <= 0x5a) || (0x61 <= first && first <= 0x7a) {
        ProxyKind::Http
    } else {
        ProxyKind::Neither
    }
}

// ---------------------------------------------------------------------------------------------
// The agent's hello
// ---------------------------------------------------------------------------------------------

/// Why received bytes are no hello.
#[derive(Clone, Copy, Debug, PartialEq, Eq, Structural)]
pub enum HelloError {
    /// The name is not UTF-8.
    NameEncoding,
    /// The password is not UTF-8.
    PasswordEncoding,
}

/// What an agent says of itself: its name and its password, each behind its length.
pub open spec fn hello_of(b: Seq<u8>) -> Progress<(Seq<char>, Seq<char>), HelloError> {
    if b.len() < 1 {
        Progress::More(missing(b, 1))
    } else {
        let n = b[0] as int;
        if b.len() < 1 + n {
            Progress::More(missing(b, 1 + n))
        } else if b.len() < 2 + n {
            Progress::More(missing(b, 2 + n))
        } else {
            let m = b[1 + n] as int;
            let name = b.subrange(1, 1 + n);
            let password = b.subrange(2 + n, 2 + n + m);
            if b.len() < 2 + n + m {
                Progress::More(missing(b, 2 + n + m))
            } else if !valid_utf8(name) {
                Progress::Failed(HelloError::NameEncoding)
            } else if !valid_utf8(password) {
                Progress::Failed(HelloError::PasswordEncoding)
            } else {
                Progress::Done {
                    value: (decode_utf8(name), decode_utf8(password)),
                    used: (2 + n + m) as usize,
                }
            }
        }
    }
}

/// The texts inside a reading result.
pub open spec fn hello_view(p: Progress<(String, String), HelloError>) -> Progress<
    (Seq<char>, Seq<char>),
    HelloError,
> {
    match p {
        Progress::More(n) => Progress::More(n),
        Progress::Done { value: (name, password), used } => Progress::Done {
            value: (name@, password@),
            used,
        },
        Progress::Failed(error) => Progress::Failed(error),
    }
}

/// What an agent says of itself.
pub fn read_hello(b: &[u8]) -> (res: Progress<(String, String), HelloError>)
    ensures
        hello_view(res) == hello_of(b@),
{
    let len: usize = b.len();
    if len < 1 {
        return Progress::More(1);
    }
    let n: usize = b[0] as usize;
    if len < 1 + n {
        return Progress::More(1 + n - len);
    }
    if len < 2 + n {
        return Progress::More(2 + n - len);
    }
    let m: usize = b[1 + n] as usize;
    if len < 2 + n + m {
        return Progress::More(2 + n + m - len);
    }
    match text::string_from_utf8(slice_to_vec(slice_subrange(b, 1, 1 + n))) {
        Ok(name) => match text::string_from_utf8(
            slice_to_vec(slice_subrange(b, 2 + n, 2 + n + m)),
        ) {
            Ok(password) => Progress::Done { value: (name, password), used: 2 + n + m },
            Err(_) => Progress::Failed(HelloError::PasswordEncoding),
        },
        Err(_) => Progress::Failed(HelloError::NameEncoding),
    }
}

/// Whether an agent's password is right: it is where none is asked for.
pub open spec fn agent_password_matches(
    server_password: Option<Seq<char>>,
    password: Seq<char>,
) -> bool {
    match server_password {
        Some(expected) => password == expected,
        None => true,
    }
}

/// What becomes of an agent's password: whether it is the right one, and what is then known of the
/// address that it came from.
pub open spec fn agent_checked(
    known: security::SecurityView,
    server_password: Option<Seq<char>>,
    password: Seq<char>,
    peer: IpAddr,
    now: u64,
) -> (bool, security::SecurityView) {
    let right = agent_password_matches(server_password, password);
    (
        right,
        client::noted(
            known,
            if right {
                Report::Success
            } else {
                Report::Failure
            },
            Some(peer),
            now,
        ),
    )
}

/// Checks an agent's password, and notes the outcome of its address.
pub fn check_agent(
    sm: &mut SecurityManager,
    server_password: Option<&str>,
    password: &str,
    peer: IpAddr,
    now: u64,
) -> (res: bool)
    requires
        old(sm).wf(),
        now + security::BAN_TTL_SECS <= u64::MAX,
    ensures
        final(sm).wf(),
        (res, final(sm)@) == agent_checked(
            old(sm)@,
            match server_password {
                Some(expected) => Some(expected@),
                None => None,
            },
            password@,
            peer,
            now,
        ),
        res == agent_password_matches(
            match server_password {
                Some(expected) => Some(expected@),
                None => None,
            },
            password@,
        ),
        final(sm)@ == client::noted(old(sm)@, if res {
                Report::Success
            } else {
                Report::Failure
            },
            Some(peer),
            now,
        ),
{
    let matches = match server_password {
        Some(expected) => text::same_text(password, expected),
        None => true,
    };
    client::note(
        sm,
        if matches {
            Report::Success
        } else {
            Report::Failure
        },
        Some(peer),
        now,
    );
    matches
}

// ---------------------------------------------------------------------------------------------
// Registration
// ---------------------------------------------------------------------------------------------

/// A request for a new address that is answered.
#[derive(Debug)]
pub struct ResetAnswer {
    /// The handle by which the waiting request is answered.
    pub response: u64,
    pub old_ip: String,
    pub new_ip: String,
    pub took_ms: u64,
}

/// Where an agent's traffic counter comes from.
#[derive(Clone, Copy, Debug, PartialEq, Eq, Structural)]
pub enum UsageStart {
    /// The counter of its previous connection goes on.
    Continue(u64),
    /// A new counter starts at this total.
    Fresh(u64),
}

/// What follows from an agent's registration.
#[derive(Debug)]
pub struct Registration {
    pub usage: UsageStart,
    /// The control channel of the connection that this one takes the place of.
    pub replaced: Option<u64>,
    /// The reset that this connection completes.
    pub answer: Option<ResetAnswer>,
}

/// A connection that dials in as an agent.
#[derive(Clone, Copy, Debug)]
pub struct Dialled {
    /// The handle of the channel to it.
    pub control: u64,
    pub addr: SocketAddr,
    pub protocol_version: u8,
    /// What it runs on, where it said so.
    pub os_type: Option<u8>,
    /// The handle of a traffic counter for it, should it need a new one.
    pub counter: u64,
}

/// Whether an entry is that of a connection which has just registered: nothing waits at it, it
/// has reported nothing, and it is not resetting.
pub open spec fn just_registered(entry: AgentEntry, dialled: Dialled) -> bool {
    &&& entry.control == dialled.control
    &&& entry.addr == dialled.addr
    &&& entry.protocol_version == dialled.protocol_version
    &&& entry.os_type == match dialled.os_type {
        Some(os_type) => os_type,
        None => 0,
    }
    &&& registry::requests(entry.active_requests) == Map::<u32, u64>::empty()
    &&& registry::opens(entry.pending_opens) == Map::<[u8; 16], u64>::empty()
    &&& entry.device is None
    &&& entry.reset_waiter is None
    &&& !entry.resetting
}

/// How long something took that started at one time and ended at another.
pub open spec fn elapsed(started: u64, now: u64) -> u64 {
    if now >= started {
        (now - started) as u64
    } else {
        0
    }
}

/// How long something took that started at one time and ended at another.
pub fn elapsed_since(started: u64, now: u64) -> (res: u64)
    ensures
        res == elapsed(started, now),
{
    if now >= started {
        now - started
    } else {
        0
    }
}

/// What is answered to a request for a new address once the agent is back.
pub open spec fn reset_answered(
    waiter: Option<ResetWaiter>,
    addr: SocketAddr,
    now_ms: u64,
    answer: Option<ResetAnswer>,
) -> bool {
    match (waiter, answer) {
        (Some(waiter), Some(answer)) => {
            &&& answer.response == waiter.response
            &&& answer.old_ip@ == waiter.old_ip@
            &&& answer.new_ip@ == address_text::ip_text(addr.ip_spec())
            &&& answer.took_ms == elapsed(waiter.started_at, now_ms)
        },
        (None, None) => true,
        _ => false,
    }
}

/// Whether an agent was registered: it has an entry of its own, with the reset token and the
/// counter of its previous connection where it had one, and a reset that waited for it is
/// answered. Other agents are as before.
pub open spec fn registered(
    before: Map<Seq<char>, AgentEntry>,
    after: Map<Seq<char>, AgentEntry>,
    name: Seq<char>,
    dialled: Dialled,
    total: u64,
    random: Option<[u8; 32]>,
    now_ms: u64,
    registration: Registration,
) -> bool {
    &&& after.contains_key(name)
    &&& after == before.insert(name, after[name])
    &&& just_registered(after[name], dialled)
    &&& if before.contains_key(name) {
        let previous = before[name];
        &&& after[name].reset_token == previous.reset_token
        &&& after[name].usage == previous.usage
        &&& registration.usage == UsageStart::Continue(previous.usage)
        &&& registration.replaced == Some(previous.control)
        &&& reset_answered(previous.reset_waiter, dialled.addr, now_ms, registration.answer)
    } else {
        &&& random matches Some(bytes) && after[name].reset_token@ == text::hex_text(bytes@)
        &&& after[name].usage == dialled.counter
        &&& registration.usage == UsageStart::Fresh(total)
        &&& registration.replaced is None
        &&& registration.answer is None
    }
}

/// The connections that are gone once an agent was registered: the one that it had is among them,
/// and its new one is not.
pub open spec fn gone_registered(
    gone: Map<u64, GoneConnection>,
    before: Map<Seq<char>, AgentEntry>,
    name: Seq<char>,
    dialled: Dialled,
) -> Map<u64, GoneConnection> {
    let left = if before.contains_key(name) {
        gone.insert(before[name].control, left_of(before[name]))
    } else {
        gone
    };
    left.remove(dialled.control)
}

/// The total that is kept of an agent; nothing where none is.
pub open spec fn total_of(totals: Map<Seq<char>, u64>, name: Seq<char>) -> u64 {
    if totals.contains_key(name) {
        totals[name]
    } else {
        0
    }
}

/// Registers an agent. One that is new needs random bytes for its reset token; without them it is
/// not registered.
pub fn register_agent(
    agents: &mut dashmap::DashMap<String, AgentEntry>,
    gone: &mut GoneConnections,
    cumulative_usage: &dashmap::DashMap<String, u64>,
    name: &str,
    dialled: Dialled,
    random: Option<[u8; 32]>,
    now_ms: u64,
) -> (res: Option<Registration>)
    ensures
        res matches Some(registration) ==> registered(
            registry::agents(*old(agents)),
            registry::agents(*final(agents)),
            name@,
            dialled,
            total_of(registry::numbers(*cumulative_usage), name@),
            random,
            now_ms,
            registration,
        ),
        match res {
            Some(registration) => {
                &&& registered(
                    registry::agents(*old(agents)),
                    registry::agents(*final(agents)),
                    name@,
                    dialled,
                    match registry::numbers(*cumulative_usage).get(name@) {
                        Some(total) => total,
                        None => 0,
                    },
                    random,
                    now_ms,
                    registration,
                )
                &&& final(gone)@ == gone_registered(
                    old(gone)@,
                    registry::agents(*old(agents)),
                    name@,
                    dialled,
                )
            },
            None => !registry::agents(*old(agents)).contains_key(name@) && random is None
                && registry::agents(*final(agents)) == registry::agents(*old(agents))
                && final(gone)@ == old(gone)@,
        },
{
    let ghost before = registry::agents(*agents);
    let previous = registry::agents_remove(agents, name);
    let mut registration = Registration {
        usage: UsageStart::Fresh(
            match registry::numbers_get(cumulative_usage, name) {
                Some(total) => total,
                None => 0,
            },
        ),
        replaced: None,
        answer: None,
    };
    let mut usage: u64 = dialled.counter;
    let reset_token: String = match previous {
        Some(entry) => {
            usage = entry.usage;
            registration.usage = UsageStart::Continue(entry.usage);
            registration.replaced = Some(entry.control);
            registration.answer = match entry.reset_waiter {
                Some(waiter) => Some(
                    ResetAnswer {
                        response: waiter.response,
                        old_ip: waiter.old_ip,
                        new_ip: dialled.addr.ip().to_text(),
                        took_ms: elapsed_since(waiter.started_at, now_ms),
                    },
                ),
                None => None,
            };
            gone.put(
                entry.control,
                GoneConnection {
                    active_requests: entry.active_requests,
                    pending_opens: entry.pending_opens,
                    resetting: entry.resetting,
                },
            );
            entry.reset_token
        },
        None => match random {
            Some(bytes) => session::random_token(&bytes),
            None => {
                assert(registry::agents(*agents) =~= before);
                return None;
            },
        },
    };
    let entry = AgentEntry {
        control: dialled.control,
        addr: dialled.addr,
        active_requests: registry::requests_new(),
        pending_opens: registry::opens_new(),
        protocol_version: dialled.protocol_version,
        device: None,
        usage,
        os_type: match dialled.os_type {
            Some(os_type) => os_type,
            None => 0,
        },
        reset_token,
        reset_waiter: None,
        resetting: false,
    };
    gone.forget(dialled.control);
    registry::agents_insert(agents, text::copy_text(name), entry);
    proof {
        let after = registry::agents(*agents);
        assert(after =~= before.insert(name@, after[name@]));
    }
    Some(registration)
}

// ---------------------------------------------------------------------------------------------
// The control connection
// ---------------------------------------------------------------------------------------------

/// The bytes of a command for an agent of a protocol version. A command that the version does
/// not have is not sent.
pub open spec fn command_bytes(protocol_version: u8, cmd: TunnelCmd) -> Option<Seq<u8>> {
    match cmd {
        TunnelCmd::RequireConn(id) => if protocol_version == 1 {
            Some(seq![CMD_REQUIRE_CONN] + net::be32(id))
        } else {
            None
        },
        TunnelCmd::Open { token, target } => if protocol_version == 2 {
            Some(seq![CMD_OPEN] + token@ + target@)
        } else {
            None
        },
        TunnelCmd::UdpSession(port) => Some(seq![CMD_UDP_SESSION] + net::be16(port)),
        TunnelCmd::ResetIp => Some(seq![CMD_RESET_IP]),
    }
}

/// The bytes of a command for an agent of a protocol version.
pub fn encode_command(protocol_version: u8, cmd: &TunnelCmd) -> (res: Option<Vec<u8>>)
    ensures
        match res {
            Some(bytes) => command_bytes(protocol_version, *cmd) == Some(bytes@),
            None => command_bytes(protocol_version, *cmd) is None,
        },
{
    let mut b: Vec<u8> = Vec::new();
    match cmd {
        TunnelCmd::RequireConn(id) => {
            if protocol_version != 1 {
                return None;
            }
            b.push(CMD_REQUIRE_CONN);
            net::push_be32(&mut b, *id);
            assert(b@ =~= seq![CMD_REQUIRE_CONN] + net::be32(*id));
        },
        TunnelCmd::Open { token, target } => {
            if protocol_version != 2 {
                return None;
            }
            b.push(CMD_OPEN);
            b.extend_from_slice(token);
            b.extend_from_slice(target.as_slice());
            assert(b@ =~= seq![CMD_OPEN] + token@ + target@);
        },
        TunnelCmd::UdpSession(port) => {
            b.push(CMD_UDP_SESSION);
            net::push_be16(&mut b, *port);
            assert(b@ =~= seq![CMD_UDP_SESSION] + net::be16(*port));
        },
        TunnelCmd::ResetIp => {
            b.push(CMD_RESET_IP);
            assert(b@ =~= seq![CMD_RESET_IP]);
        },
    }
    Some(b)
}

/// What an agent sent on its control connection.
#[derive(Debug)]
pub enum AgentMessage {
    /// It is alive, and is told that the server is.
    Ping,
    /// It reports its state.
    Status(Vec<u8>),
    /// It reports more than is taken; this many bytes are to be skipped.
    Oversized(usize),
    Unknown(u8),
}

/// `AgentMessage`, with bytes by their contents.
pub enum AgentMessageView {
    Ping,
    Status(Seq<u8>),
    Oversized(int),
    Unknown(u8),
}

impl AgentMessage {
    /// The message by its contents.
    pub open spec fn view(&self) -> AgentMessageView {
        match self {
            AgentMessage::Ping => AgentMessageView::Ping,
            AgentMessage::Status(payload) => AgentMessageView::Status(payload@),
            AgentMessage::Oversized(n) => AgentMessageView::Oversized(*n as int),
            AgentMessage::Unknown(cmd) => AgentMessageView::Unknown(*cmd),
        }
    }
}

/// The message that bytes on a control connection are.
pub open spec fn agent_message_of(b: Seq<u8>, protocol_version: u8) -> Progress<
    AgentMessageView,
    (),
> {
    if b.len() < 1 {
        Progress::More(missing(b, 1))
    } else if b[0] == CMD_PING {
        Progress::Done { value: AgentMessageView::Ping, used: 1 }
    } else if protocol_version == 2 && b[0] == CMD_STATUS {
        if b.len() < 3 {
            Progress::More(missing(b, 3))
        } else {
            let n = net::from_be16(b[1], b[2]) as int;
            if n > MAX_STATUS_BYTES {
                Progress::Done { value: AgentMessageView::Oversized(n), used: 3 }
            } else if b.len() < 3 + n {
                Progress::More(missing(b, 3 + n))
            } else {
                Progress::Done {
                    value: AgentMessageView::Status(b.subrange(3, 3 + n)),
                    used: (3 + n) as usize,
                }
            }
        }
    } else {
        Progress::Done { value: AgentMessageView::Unknown(b[0]), used: 1 }
    }
}

/// The contents inside a reading result.
pub open spec fn agent_message_view(p: Progress<AgentMessage, ()>) -> Progress<
    AgentMessageView,
    (),
> {
    match p {
        Progress::More(n) => Progress::More(n),
        Progress::Done { value, used } => Progress::Done { value: value@, used },
        Progress::Failed(error) => Progress::Failed(error),
    }
}

/// The message that bytes on a control connection are.
pub fn read_agent_message(b: &[u8], protocol_version: u8) -> (res: Progress<AgentMessage, ()>)
    ensures
        agent_message_view(res) == agent_message_of(b@, protocol_version),
{
    let len: usize = b.len();
    if len < 1 {
        return Progress::More(1);
    }
    if b[0] == CMD_PING {
        return Progress::Done { value: AgentMessage::Ping, used: 1 };
    }
    if protocol_version == 2 && b[0] == CMD_STATUS {
        if len < 3 {
            return Progress::More(3 - len);
        }
        let n: usize = net::join_be16(b[1], b[2]) as usize;
        if n > MAX_STATUS_BYTES {
            return Progress::Done { value: AgentMessage::Oversized(n), used: 3 };
        }
        if len < 3 + n {
            return Progress::More(3 + n - len);
        }
        let payload = slice_to_vec(slice_subrange(b, 3, 3 + n));
        return Progress::Done { value: AgentMessage::Status(payload), used: 3 + n };
    }
    Progress::Done { value: AgentMessage::Unknown(b[0]), used: 1 }
}

/// How many of the bytes that are to be skipped are read at once.
pub fn discard_control_bytes(remaining: usize) -> (res: usize)
    ensures
        res == (if remaining < MAX_STATUS_BYTES {
            remaining
        } else {
            MAX_STATUS_BYTES
        }),
{
    if remaining < MAX_STATUS_BYTES {
        remaining
    } else {
        MAX_STATUS_BYTES
    }
}

/// Whether a side that was last heard of at one time is given up at another.
pub fn is_idle(last_activity: u64, now: u64) -> (res: bool)
    ensures
        res == (elapsed(last_activity, now) > AGENT_IDLE_TIMEOUT),
{
    elapsed_since(last_activity, now) > AGENT_IDLE_TIMEOUT
}

// ---------------------------------------------------------------------------------------------
// The end of a control connection
// ---------------------------------------------------------------------------------------------

/// Whether an agent that disconnects keeps its entry: it does while its address is changed.
pub fn preserves_resetting_agent(
    entry_addr: SocketAddr,
    disconnected_addr: SocketAddr,
    resetting: bool,
) -> (res: bool)
    ensures
        res == (entry_addr == disconnected_addr && resetting),
{
    entry_addr == disconnected_addr && resetting
}

/// An entry at which nobody waits any more.
pub open spec fn cleared(before: AgentEntry, after: AgentEntry) -> bool {
    &&& registry::requests(after.active_requests) == Map::<u32, u64>::empty()
    &&& registry::opens(after.pending_opens) == Map::<[u8; 16], u64>::empty()
    &&& after == (AgentEntry {
        active_requests: after.active_requests,
        pending_opens: after.pending_opens,
        ..before
    })
}

/// What a disconnect does to the agents: who waited at the connection waits no longer, and the
/// entry goes if it is that of the connection's address, unless that address is being changed.
pub open spec fn disconnected(
    before: Map<Seq<char>, AgentEntry>,
    after: Map<Seq<char>, AgentEntry>,
    name: Seq<char>,
    control: u64,
    addr: SocketAddr,
) -> bool {
    if !before.contains_key(name) {
        after == before
    } else if before[name].addr == addr && !before[name].resetting {
        after == before.remove(name)
    } else if before[name].control == control {
        &&& after.contains_key(name)
        &&& after == before.insert(name, after[name])
        &&& cleared(before[name], after[name])
    } else {
        after == before
    }
}

/// A connection that is gone, at which nobody waits any more.
pub open spec fn gone_cleared(before: GoneConnection, after: GoneConnection) -> bool {
    &&& registry::requests(after.active_requests) == Map::<u32, u64>::empty()
    &&& registry::opens(after.pending_opens) == Map::<[u8; 16], u64>::empty()
    &&& after.resetting == before.resetting
}

/// What a disconnect does to the connections that are gone. Who waited at the connection waits no
/// longer, and nothing is left of one whose entry goes. Where the entry of another connection from
/// the same address goes, that one is gone too.
pub open spec fn gone_disconnected(
    before: Map<u64, GoneConnection>,
    after: Map<u64, GoneConnection>,
    agents: Map<Seq<char>, AgentEntry>,
    name: Seq<char>,
    control: u64,
    addr: SocketAddr,
) -> bool {
    let entry = agents[name];
    let dropped = agents.contains_key(name) && entry.addr == addr && !entry.resetting;
    if agents.contains_key(name) && entry.control == control {
        after == if dropped {
            before.remove(control)
        } else {
            before
        }
    } else {
        let left = if dropped {
            before.insert(entry.control, left_of(entry))
        } else {
            before
        };
        if before.contains_key(control) {
            &&& after.contains_key(control)
            &&& after == left.insert(control, after[control])
            &&& gone_cleared(before[control], after[control])
        } else {
            after == left
        }
    }
}

/// The larger of two totals.
pub open spec fn larger(a: u64, b: u64) -> u64 {
    if a >= b {
        a
    } else {
        b
    }
}

/// Totals with one raised to what it is now.
pub open spec fn total_raised(
    totals: Map<Seq<char>, u64>,
    name: Seq<char>,
    usage: u64,
) -> Map<Seq<char>, u64> {
    totals.insert(
        name,
        if totals.contains_key(name) {
            larger(totals[name], usage)
        } else {
            usage
        },
    )
}

/// Clears what waits at an agent.
pub fn clear_waiters(entry: &mut AgentEntry)
    ensures
        cleared(*old(entry), *final(entry)),
{
    registry::requests_clear(&mut entry.active_requests);
    registry::opens_clear(&mut entry.pending_opens);
}

/// Clears what waits at a connection that is gone.
fn clear_gone(gone: &mut GoneConnections, control: u64)
    ensures
        if old(gone)@.contains_key(control) {
            &&& final(gone)@.contains_key(control)
            &&& final(gone)@ == old(gone)@.insert(control, final(gone)@[control])
            &&& gone_cleared(old(gone)@[control], final(gone)@[control])
        } else {
            final(gone)@ == old(gone)@
        },
{
    if let Some(mut connection) = gone.take(control) {
        registry::requests_clear(&mut connection.active_requests);
        registry::opens_clear(&mut connection.pending_opens);
        gone.put(control, connection);
        assert(gone@ =~= old(gone)@.insert(control, gone@[control]));
    } else {
        assert(gone@ =~= old(gone)@);
    }
}

/// Ends an agent's control connection. `usage` is what its counter says.
pub fn disconnect_agent(
    agents: &mut dashmap::DashMap<String, AgentEntry>,
    gone: &mut GoneConnections,
    cumulative_usage: &mut dashmap::DashMap<String, u64>,
    name: &str,
    control: u64,
    addr: SocketAddr,
    usage: u64,
)
    ensures
        disconnected(
            registry::agents(*old(agents)),
            registry::agents(*final(agents)),
            name@,
            control,
            addr,
        ),
        gone_disconnected(
            old(gone)@,
            final(gone)@,
            registry::agents(*old(agents)),
            name@,
            control,
            addr,
        ),
        registry::numbers(*final(cumulative_usage)) == total_raised(
            registry::numbers(*old(cumulative_usage)),
            name@,
            usage,
        ),
{
    let total: u64 = match registry::numbers_get(cumulative_usage, name) {
        Some(total) => if total >= usage {
            total
        } else {
            usage
        },
        None => usage,
    };
    registry::numbers_insert(cumulative_usage, text::copy_text(name), total);
    let ghost before = registry::agents(*agents);
    match registry::agents_remove(agents, name) {
        Some(mut entry) => {
            let current = entry.control == control;
            if !current {
                clear_gone(gone, control);
            }
            if entry.addr == addr && !preserves_resetting_agent(entry.addr, addr, entry.resetting) {
                if current {
                    gone.forget(control);
                } else {
                    gone.put(
                        entry.control,
                        GoneConnection {
                            active_requests: entry.active_requests,
                            pending_opens: entry.pending_opens,
                            resetting: entry.resetting,
                        },
                    );
                }
                proof {
                    if !current && old(gone)@.contains_key(control) {
                        assert(gone@ =~= old(gone)@.insert(
                            before[name@].control,
                            left_of(before[name@]),
                        ).insert(control, gone@[control]));
                    }
                }
                return;
            }
            if current {
                clear_waiters(&mut entry);
            }
            registry::agents_insert(agents, text::copy_text(name), entry);
            proof {
                let after = registry::agents(*agents);
                assert(after =~= before.insert(name@, after[name@]));
                assert(before.insert(name@, before[name@]) =~= before);
            }
        },
        None => {
            clear_gone(gone, control);
            assert(registry::agents(*agents) =~= before);
        },
    }
}

// ---------------------------------------------------------------------------------------------
// What bytes mean, and what is known of an agent
// ---------------------------------------------------------------------------------------------

/// A first byte 0 begins a control connection, 1 a data connection for a request, 2 one for a
/// token, and 0x16 a TLS handshake; any other begins nothing.
pub proof fn law_connections_are_told_apart(first: u8)
    ensures
        kind_of(first) == ConnectionKind::Control <==> first == 0,
        kind_of(first) == ConnectionKind::Data <==> first == 1,
        kind_of(first) == ConnectionKind::TokenData <==> first == 2,
        kind_of(first) == ConnectionKind::TlsControl <==> first == 0x16,
        kind_of(first) == ConnectionKind::Unknown <==> first > 2 && first != 0x16,
{
}

/// A proxy client that begins with 5 speaks SOCKS, and one that begins with a letter, as every
/// method of HTTP does, speaks HTTP.
pub proof fn law_proxy_clients_are_told_apart(first: u8, method: Seq<char>)
    ensures
        proxy_of(first) == ProxyKind::Socks <==> first == 5,
        method.len() > 0 && method[0] as int == first && ('A' <= method[0] <= 'Z' || 'a'
            <= method[0] <= 'z') ==> proxy_of(first) == ProxyKind::Http,
        proxy_of(first) == ProxyKind::Http ==> (65 <= first <= 90) || (97 <= first <= 122),
{
}

/// What the server writes to an agent, byte for byte: 1 and the number of a request, highest byte
/// first, to an agent of version 1 alone; 0x10, the token and the target to one of version 2
/// alone; 3 and a port, and 4, to both.
pub proof fn law_commands_on_the_wire(version: u8, id: u32, port: u16, cmd: TunnelCmd)
    ensures
        command_bytes(1, TunnelCmd::RequireConn(id)) == Some(
            seq![
                1u8,
                (id / 0x100_0000) as u8,
                (id / 0x1_0000 % 256) as u8,
                (id / 256 % 256) as u8,
                (id % 256) as u8,
            ],
        ),
        version != 1 ==> command_bytes(version, TunnelCmd::RequireConn(id)) is None,
        cmd matches TunnelCmd::Open { token, target } ==> command_bytes(2, cmd) == Some(
            seq![0x10u8] + token@ + target@,
        ) && (version != 2 ==> command_bytes(version, cmd) is None),
        command_bytes(version, TunnelCmd::UdpSession(port)) == Some(
            seq![3u8, (port / 256) as u8, (port % 256) as u8],
        ),
        command_bytes(version, TunnelCmd::ResetIp) == Some(seq![4u8]),
{
    assert(seq![1u8] + net::be32(id) =~= seq![
        1u8,
        (id / 0x100_0000) as u8,
        (id / 0x1_0000 % 256) as u8,
        (id / 256 % 256) as u8,
        (id % 256) as u8,
    ]);
    assert(seq![3u8] + net::be16(port) =~= seq![3u8, (port / 256) as u8, (port % 256) as u8]);
}

/// What an agent writes is read byte by byte: 6 is a ping; 0x11 from an agent of version 2, a
/// length of at most 1024, highest byte first, and as many bytes are a report; a longer one is to
/// be skipped; everything else means nothing.
pub proof fn law_agents_messages(
    version: u8,
    first: u8,
    hi: u8,
    lo: u8,
    payload: Seq<u8>,
    rest: Seq<u8>,
)
    ensures
        agent_message_of(seq![6u8] + rest, version) == (Progress::<AgentMessageView, ()>::Done {
            value: AgentMessageView::Ping,
            used: 1,
        }),
        payload.len() == hi * 256 + lo && payload.len() <= 1024 ==> agent_message_of(
            seq![0x11u8, hi, lo] + payload + rest,
            2,
        ) == (Progress::<AgentMessageView, ()>::Done {
            value: AgentMessageView::Status(payload),
            used: (3 + payload.len()) as usize,
        }),
        hi * 256 + lo > 1024 ==> agent_message_of(seq![0x11u8, hi, lo] + rest, 2) == (Progress::<
            AgentMessageView,
            (),
        >::Done { value: AgentMessageView::Oversized(hi * 256 + lo), used: 3 }),
        first != 6 && (first != 0x11 || version != 2) ==> agent_message_of(
            seq![first] + rest,
            version,
        ) == (Progress::<AgentMessageView, ()>::Done {
            value: AgentMessageView::Unknown(first),
            used: 1,
        }),
{
    assert((seq![6u8] + rest)[0] == 6);
    assert((seq![first] + rest)[0] == first);
    let b = seq![0x11u8, hi, lo] + payload + rest;
    assert(b[0] == 0x11 && b[1] == hi && b[2] == lo);
    let c = seq![0x11u8, hi, lo] + rest;
    assert(c[0] == 0x11 && c[1] == hi && c[2] == lo);
    if payload.len() == hi * 256 + lo {
        assert(b.subrange(3, 3 + payload.len() as int) =~= payload);
    }
}

/// Whatever part of a message or of an agent's first bytes has come, no more is asked for than
/// belongs to it.
pub proof fn law_messages_ask_for_no_more_than_comes(b: Seq<u8>, k: int, version: u8)
    requires
        b.len() <= usize::MAX,
        0 <= k,
    ensures
        agent_message_of(b, version) matches Progress::Done { used, .. } ==> used <= b.len() && (k
            < used ==> (agent_message_of(b.take(k), version) matches Progress::More(n) && 1 <= n
            && k + n <= used)),
        hello_of(b) matches Progress::Done { used, .. } ==> used <= b.len() && (k < used
            ==> (hello_of(b.take(k)) matches Progress::More(n) && 1 <= n && k + n <= used)),
{
    if k <= b.len() {
        let c = b.take(k);
        if k >= 1 {
            assert(c[0] == b[0]);
            let n = b[0] as int;
            if k >= 2 + n {
                assert(c[1 + n] == b[1 + n]);
            }
            if k >= 3 {
                assert(c[1] == b[1] && c[2] == b[2]);
            }
        }
    }
}

/// An agent's name and password are read as they were sent, each behind its length.
pub proof fn law_hello_is_read(name: Seq<char>, password: Seq<char>, rest: Seq<u8>)
    requires
        vstd::utf8::encode_utf8(name).len() <= 255,
        vstd::utf8::encode_utf8(password).len() <= 255,
    ensures
        ({
            let x = vstd::utf8::encode_utf8(name);
            let y = vstd::utf8::encode_utf8(password);
            hello_of(seq![x.len() as u8] + x + seq![y.len() as u8] + y + rest) == (Progress::<
                (Seq<char>, Seq<char>),
                HelloError,
            >::Done { value: (name, password), used: (2 + x.len() + y.len()) as usize })
        }),
{
    let x = vstd::utf8::encode_utf8(name);
    let y = vstd::utf8::encode_utf8(password);
    vstd::utf8::encode_utf8_valid_utf8(name);
    vstd::utf8::encode_utf8_decode_utf8(name);
    vstd::utf8::encode_utf8_valid_utf8(password);
    vstd::utf8::encode_utf8_decode_utf8(password);
    let b = seq![x.len() as u8] + x + seq![y.len() as u8] + y + rest;
    let n = x.len() as int;
    let m = y.len() as int;
    assert(b[0] == n);
    assert(b[1 + n] == m);
    assert(b.subrange(1, 1 + n) =~= x);
    assert(b.subrange(2 + n, 2 + n + m) =~= y);
}

/// A server with a password admits the agents that know it, one without admits every agent.
pub proof fn law_who_may_dial_in(expected: Seq<char>, password: Seq<char>)
    ensures
        agent_password_matches(Some(expected), expected),
        password != expected ==> !agent_password_matches(Some(expected), password),
        agent_password_matches(None, password),
{
}

/// An agent that dials in is known by its name, with the channel, the address, the version and
/// the system that it dialled in with; nobody waits for it yet, and no other agent is touched. One
/// that was there keeps its counter and its token, and the channel of its previous connection is
/// told; a new one starts with its last total and gets the drawn token.
pub proof fn law_dialled_agent_is_known(
    before: Map<Seq<char>, AgentEntry>,
    after: Map<Seq<char>, AgentEntry>,
    name: Seq<char>,
    dialled: Dialled,
    total: u64,
    random: Option<[u8; 32]>,
    now_ms: u64,
    registration: Registration,
    other: Seq<char>,
)
    requires
        registered(before, after, name, dialled, total, random, now_ms, registration),
    ensures
        after.contains_key(name),
        after[name].control == dialled.control,
        after[name].addr == dialled.addr,
        after[name].protocol_version == dialled.protocol_version,
        dialled.os_type matches Some(os_type) ==> after[name].os_type == os_type,
        dialled.os_type is None ==> after[name].os_type == 0,
        after[name].device is None,
        !after[name].resetting && after[name].reset_waiter is None,
        registry::requests(after[name].active_requests).dom() =~= Set::<u32>::empty(),
        registry::opens(after[name].pending_opens).dom() =~= Set::<[u8; 16]>::empty(),
        other != name ==> (after.contains_key(other) <==> before.contains_key(other))
            && after[other] == before[other],
        before.contains_key(name) ==> {
            &&& after[name].usage == before[name].usage
            &&& registration.usage == UsageStart::Continue(before[name].usage)
            &&& after[name].reset_token@ == before[name].reset_token@
            &&& registration.replaced == Some(before[name].control)
            &&& registration.answer is Some <==> before[name].reset_waiter is Some
            &&& registration.answer matches Some(answer) ==> {
                let waiter = before[name].reset_waiter->0;
                &&& answer.response == waiter.response
                &&& answer.old_ip@ == waiter.old_ip@
                &&& answer.new_ip@ == address_text::ip_text(dialled.addr.ip_spec())
                &&& waiter.started_at <= now_ms ==> answer.took_ms == now_ms - waiter.started_at
            }
        },
        !before.contains_key(name) ==> {
            &&& after[name].usage == dialled.counter
            &&& registration.usage == UsageStart::Fresh(total)
            &&& random matches Some(bytes) && after[name].reset_token@ == text::hex_text(bytes@)
            &&& registration.replaced is None
            &&& registration.answer is None
        },
{
}

/// An agent whose connection ends is forgotten where it is still at the address of that
/// connection and does not change it; where it changes it, the agent stays known and only those
/// that wait for it are dropped. No other agent is touched.
pub proof fn law_disconnected_agent(
    before: Map<Seq<char>, AgentEntry>,
    after: Map<Seq<char>, AgentEntry>,
    name: Seq<char>,
    control: u64,
    addr: SocketAddr,
    other: Seq<char>,
)
    requires
        disconnected(before, after, name, control, addr),
    ensures
        before.contains_key(name) && before[name].addr == addr && !before[name].resetting
            ==> !after.contains_key(name),
        before.contains_key(name) && (before[name].addr != addr || before[name].resetting)
            ==> after.contains_key(name) && after[name].addr == before[name].addr
            && after[name].resetting == before[name].resetting && after[name].control
            == before[name].control && after[name].usage == before[name].usage
            && after[name].reset_waiter == before[name].reset_waiter && after[name].reset_token
            == before[name].reset_token,
        before.contains_key(name) && before[name].addr != addr && before[name].control == control
            ==> registry::requests(after[name].active_requests) == Map::<u32, u64>::empty()
            && registry::opens(after[name].pending_opens) == Map::<[u8; 16], u64>::empty(),
        before.contains_key(name) && before[name].addr != addr && before[name].control != control
            ==> after[name] == before[name],
        other != name ==> (after.contains_key(other) <==> before.contains_key(other))
            && after[other] == before[other],
{
}

/// The time from one moment to a later one is their difference; to an earlier one it is none.
pub proof fn law_elapsed_time(started: u64, now: u64)
    ensures
        started <= now ==> started + elapsed(started, now) == now,
        now < started ==> elapsed(started, now) == 0,
{
}

/// The total of an agent is raised to what was counted and never lowered; no other is touched.
pub proof fn law_totals_only_grow(
    totals: Map<Seq<char>, u64>,
    name: Seq<char>,
    usage: u64,
    other: Seq<char>,
)
    ensures
        ({
            let after = total_raised(totals, name, usage);
            &&& after.contains_key(name)
            &&& after[name] >= usage
            &&& totals.contains_key(name) ==> after[name] >= totals[name] && (after[name] == usage
                || after[name] == totals[name])
            &&& !totals.contains_key(name) ==> after[name] == usage
            &&& other != name ==> (after.contains_key(other) <==> totals.contains_key(other))
                && after[other] == totals[other]
        }),
{
}

/// An agent with the right password is let in and its failures are forgotten; one with a wrong
/// password is not, and its address is counted as having failed.
pub proof fn law_agents_are_checked(
    known: security::SecurityView,
    expected: Seq<char>,
    password: Seq<char>,
    peer: IpAddr,
    now: u64,
)
    requires
        now + 900 <= u64::MAX,
    ensures
        ({
            let name = address_text::ip_text(peer);
            let right = agent_checked(known, Some(expected), expected, peer, now);
            let wrong = agent_checked(known, Some(expected), password, peer, now);
            &&& right.0 && !right.1.attempts.contains_key(name) && right.1.bans == known.bans
            &&& agent_checked(known, None, password, peer, now).0
            &&& password != expected ==> !wrong.0
            &&& password != expected && !known.bans.contains_key(name)
                && !known.attempts.contains_key(name) ==> wrong.1.attempts.contains_key(name)
                && wrong.1.attempts[name] == 1
        }),
{
    client::law_reports_are_counted(known, peer, Report::Failure, now, now);
}

/// The total that a new agent starts with is the one that is kept of it.
pub proof fn law_kept_total_is_found(totals: Map<Seq<char>, u64>, name: Seq<char>, total: u64)
    ensures
        total_of(totals.insert(name, total), name) == total,
        !totals.contains_key(name) ==> total_of(totals, name) == 0,
{
}

/// The connection that an agent's new one takes the place of is remembered under its channel, with
/// those who wait for it and whether its address was being changed; a channel that is used again
/// is not.
pub proof fn law_replaced_connection_is_remembered(
    gone: Map<u64, GoneConnection>,
    before: Map<Seq<char>, AgentEntry>,
    name: Seq<char>,
    dialled: Dialled,
    other: u64,
)
    ensures
        ({
            let after = gone_registered(gone, before, name, dialled);
            &&& !after.contains_key(dialled.control)
            &&& before.contains_key(name) && before[name].control != dialled.control ==> {
                let left = after[before[name].control];
                &&& after.contains_key(before[name].control)
                &&& left.active_requests == before[name].active_requests
                &&& left.pending_opens == before[name].pending_opens
                &&& left.resetting == before[name].resetting
            }
            &&& other != dialled.control && !(before.contains_key(name) && before[name].control
                == other) ==> (after.contains_key(other) <==> gone.contains_key(other))
                && after[other] == gone[other]
        }),
{
}

/// Those who wait for a connection that ends are dropped where it was replaced before; what is
/// remembered of other connections stays, but that an agent which is forgotten with the end of an
/// older connection leaves its own behind.
pub proof fn law_ended_connection_drops_its_waiters(
    before: Map<u64, GoneConnection>,
    after: Map<u64, GoneConnection>,
    agents: Map<Seq<char>, AgentEntry>,
    name: Seq<char>,
    control: u64,
    addr: SocketAddr,
    other: u64,
)
    requires
        gone_disconnected(before, after, agents, name, control, addr),
    ensures
        !(agents.contains_key(name) && agents[name].control == control) && before.contains_key(
            control,
        ) ==> after.contains_key(control) && registry::requests(after[control].active_requests)
            == Map::<u32, u64>::empty() && registry::opens(after[control].pending_opens) == Map::<
            [u8; 16],
            u64,
        >::empty() && after[control].resetting == before[control].resetting,
        agents.contains_key(name) && agents[name].control != control && agents[name].addr == addr
            && !agents[name].resetting ==> after.contains_key(agents[name].control)
            && after[agents[name].control].active_requests == agents[name].active_requests
            && !after[agents[name].control].resetting,
        other != control && !(agents.contains_key(name) && agents[name].control == other) ==> (
        after.contains_key(other) <==> before.contains_key(other)) && (before.contains_key(other)
            ==> after[other] == before[other]),
{
}

} // verus!
