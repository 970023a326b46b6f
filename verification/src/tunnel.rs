//! The tunnel: agents that dial in, ports that clients connect to, and the dashboard's requests.
pub mod agent;
pub mod agent_session;
pub mod agent_udp;
pub mod agreement;
pub mod api;
pub mod api_reply;
pub mod api_request;
pub mod control;
pub mod control_session;
pub mod dashboard;
pub mod data;
pub mod device;
pub mod gone;
pub mod listener;
pub mod qr;
pub mod reset;

use vstd::prelude::*;

use crate::net::SocketAddr;
use crate::registry;
use crate::text;

verus! {

/// The first port that a proxy may listen on.
pub const SOCKS_PORT_MIN: u16 = 51300;

/// The last port that a proxy may listen on.
pub const SOCKS_PORT_MAX: u16 = 51399;

/// How many connections a port takes at once where nothing else is said.
pub const DEFAULT_MAX_CONNS: usize = 256;

/// The most connections that a port can be allowed to take at once.
pub const MAX_CONNS: usize = 65_535;

/// Whether a proxy may listen on a port.
pub fn is_socks_port(port: u16) -> (res: bool)
    ensures
        res == (SOCKS_PORT_MIN <= port <= SOCKS_PORT_MAX),
{
    SOCKS_PORT_MIN <= port && port <= SOCKS_PORT_MAX
}

/// What an Android device reports of itself. The temperature is kept by the bits of its
/// single-precision form.
#[derive(Debug)]
pub struct DeviceStatus {
    pub carrier: String,
    pub net: String,
    pub signal: u8,
    pub battery: u8,
    pub temp_c_bits: u32,
    pub charging: bool,
    pub health: String,
    pub app: String,
    pub proto: u8,
    pub assistant: bool,
    pub transport: String,
}

/// A device report with the times at which it came: Unix seconds, and nanoseconds of the
/// monotonic clock.
#[derive(Debug)]
pub struct DeviceSnapshot {
    pub device: DeviceStatus,
    pub received_at: u64,
    pub received: u64,
}

/// A request for a new address that waits for its agent to come back.
#[derive(Debug)]
pub struct ResetWaiter {
    pub old_ip: String,
    /// Milliseconds of the monotonic clock.
    pub started_at: u64,
    /// The handle by which the waiting request is answered.
    pub response: u64,
}

/// A connected agent. Channels and counters are known by handles.
#[derive(Debug)]
pub struct AgentEntry {
    /// The handle of the channel to the agent's control connection.
    pub control: u64,
    pub addr: SocketAddr,
    /// Requests that wait for a data connection, each with the handle of its waiter.
    pub active_requests: dashmap::DashMap<u32, u64>,
    /// Tokens that wait for a data connection, each with the handle of its waiter.
    pub pending_opens: dashmap::DashMap<[u8; 16], u64>,
    pub protocol_version: u8,
    pub device: Option<DeviceSnapshot>,
    /// The handle of the traffic counter.
    pub usage: u64,
    pub os_type: u8,
    pub reset_token: String,
    pub reset_waiter: Option<ResetWaiter>,
    pub resetting: bool,
}

/// A port that clients connect to. Channels, counters and limits are known by handles.
#[derive(Debug)]
pub struct BindEntry {
    pub agent_id: String,
    pub port: u16,
    /// The handle of the traffic counter.
    pub usage: u64,
    pub max_conns: usize,
    /// The handle of the connection limit.
    pub connection_limit: u64,
    pub user: Option<String>,
    pub pass: Option<String>,
    /// The handle of the channel that shuts the port down, until it was used.
    pub shutdown: Option<u64>,
}

/// The connected agents by their names.
pub type AgentRegistry = dashmap::DashMap<String, AgentEntry>;

/// The open ports.
pub type BindRegistry = dashmap::DashMap<u16, BindEntry>;

/// No agents.
pub fn no_agents() -> (res: AgentRegistry)
    ensures
        registry::agents(res) == Map::<Seq<char>, AgentEntry>::empty(),
{
    registry::agents_new()
}

/// No open ports.
pub fn no_binds() -> (res: BindRegistry)
    ensures
        registry::binds(res) == Map::<u16, BindEntry>::empty(),
{
    registry::binds_new()
}

/// No traffic totals.
pub fn no_totals() -> (res: dashmap::DashMap<String, u64>)
    ensures
        registry::numbers(res) == Map::<Seq<char>, u64>::empty(),
{
    registry::numbers_new()
}

/// The address that the dashboard listens on.
pub open spec fn api_address(api_port: u16, public: bool) -> Seq<char> {
    (if public {
        "0.0.0.0"@
    } else {
        "127.0.0.1"@
    }) + seq![':'] + text::decimal(api_port as nat)
}

/// The address that the dashboard listens on: every address of the machine, or only its own.
pub fn api_bind_addr(api_port: u16, public: bool) -> (res: String)
    ensures
        res@ == api_address(api_port, public),
        res@ == (if public {
            "0.0.0.0"@
        } else {
            "127.0.0.1"@
        }) + ":"@ + text::decimal(api_port as nat),
{
    let host = if public {
        "0.0.0.0"
    } else {
        "127.0.0.1"
    };
    proof {
        reveal_strlit(":");
        assert(":"@ =~= seq![':']);
    }
    let mut res: String = text::join(host, ":");
    text::push_decimal(&mut res, api_port as u128);
    res
}

/// The dashboard listens on its port, at the machine's own address alone unless it is public.
pub proof fn law_api_address(api_port: u16)
    ensures
        crate::address_text::socket_of(api_address(api_port, false)) == Some(
            SocketAddr::V4 {
                ip: crate::net::Ipv4Addr { a: 127, b: 0, c: 0, d: 1 },
                port: api_port,
            },
        ),
        crate::address_text::socket_of(api_address(api_port, true)) == Some(
            SocketAddr::V4 {
                ip: crate::net::Ipv4Addr { a: 0, b: 0, c: 0, d: 0 },
                port: api_port,
            },
        ),
{
    let own = crate::net::Ipv4Addr { a: 127, b: 0, c: 0, d: 1 };
    let all = crate::net::Ipv4Addr { a: 0, b: 0, c: 0, d: 0 };
    reveal_strlit("127.0.0.1");
    reveal_strlit("0.0.0.0");
    reveal_with_fuel(text::decimal, 4);
    crate::address_text::law_ipv4_text_form(own, api_port);
    crate::address_text::law_ipv4_text_form(all, api_port);
    assert(text::decimal(127) =~= seq!['1', '2', '7']);
    assert(text::decimal(0) =~= seq!['0']);
    assert(text::decimal(1) =~= seq!['1']);
    assert(crate::address_text::ipv4_text(own) =~= "127.0.0.1"@);
    assert(crate::address_text::ipv4_text(all) =~= "0.0.0.0"@);
    crate::address_text::law_socket_text_reads_back(SocketAddr::V4 { ip: own, port: api_port });
    crate::address_text::law_socket_text_reads_back(SocketAddr::V4 { ip: all, port: api_port });
}

} // verus!
