//! The agent's side of the tunnel: its messages, the server's commands, what it may connect to,
//! and when it dials again.
use vstd::prelude::*;
use vstd::slice::slice_subrange;
use vstd::utf8::encode_utf8;

use crate::net::{self, IpAddr, SocketAddr};
use crate::progress::{missing, Progress};
use crate::socks5::{self, PacketError};
use crate::text;
use crate::tunnel::control::{
    self, CMD_OPEN, CMD_PING, CMD_REQUIRE_CONN, CMD_RESET_IP, CMD_STATUS, CMD_UDP_SESSION,
    MAX_STATUS_BYTES, V2_DATA_CONNECTION, V2_STATUS_BLOCKED, V2_STATUS_OK, V2_STATUS_UNREACHABLE,
};
use crate::tunnel::data;
use crate::tunnel::device::STATUS_REFRESH_INTERVAL;

verus! {

// ---------------------------------------------------------------------------------------------
// The server's address
// ---------------------------------------------------------------------------------------------

/// The server's address as it is dialled: without a scheme and a slash at its end, and with the
/// usual port where it has none.
pub open spec fn dialled_address(s: Seq<char>) -> Seq<char> {
    let bare = text::without(text::without(s, "http://"@), "https://"@);
    let host = if bare.len() > 0 && bare.last() == '/' {
        bare.drop_last()
    } else {
        bare
    };
    if host.contains(':') {
        host
    } else {
        host + ":8080"@
    }
}

/// The server's address as it is dialled.
pub fn normalize_server_addr(server_addr: &str) -> (res: String)
    ensures
        res@ == dialled_address(server_addr@),
{
    proof {
        reveal_strlit("http://");
        reveal_strlit("https://");
    }
    let chars = text::to_chars(server_addr);
    let http = text::to_chars("http://");
    let https = text::to_chars("https://");
    let plain = text::remove_all(chars.as_slice(), http.as_slice());
    let bare = text::remove_all(plain.as_slice(), https.as_slice());
    let mut end: usize = bare.len();
    if end > 0 && bare[end - 1] == '/' {
        end = end - 1;
    }
    let host = slice_subrange(bare.as_slice(), 0, end);
    proof {
        if end < bare@.len() {
            assert(host@ =~= bare@.drop_last());
        } else {
            assert(host@ =~= bare@);
        }
    }
    let res = text::from_chars(host);
    if text::has_char(host, ':') {
        res
    } else {
        text::join(res.as_str(), ":8080")
    }
}

// ---------------------------------------------------------------------------------------------
// The agent's messages
// ---------------------------------------------------------------------------------------------

/// A text behind its length. Of the length only the low byte is sent.
pub open spec fn with_length(s: Seq<char>) -> Seq<u8> {
    seq![(encode_utf8(s).len() % 256) as u8] + encode_utf8(s)
}

/// Appends a text behind its length.
fn push_with_length(out: &mut Vec<u8>, s: &str)
    ensures
        final(out)@ == old(out)@ + with_length(s@),
{
    let bytes = text::to_bytes(s);
    out.push((bytes.len() % 256) as u8);
    out.extend_from_slice(bytes.as_slice());
    assert(out@ =~= old(out)@ + with_length(s@));
}

/// What an agent says of itself on a control connection. In the clear, the kind of the connection
/// comes first.
pub open spec fn agent_hello(
    protocol_version: u8,
    name: Seq<char>,
    password: Seq<char>,
    android: bool,
) -> Seq<u8> {
    let kind = if protocol_version == 2 {
        seq![]
    } else {
        seq![0x00u8]
    };
    kind + with_length(name) + with_length(password) + seq![
        if android {
            1u8
        } else {
            0u8
        },
    ]
}

/// What an agent says of itself on a control connection.
pub fn write_hello(
    protocol_version: u8,
    name: &str,
    password: Option<&str>,
    android: bool,
) -> (res: Vec<u8>)
    ensures
        res@ == agent_hello(
            protocol_version,
            name@,
            match password {
                Some(password) => password@,
                None => ""@,
            },
            android,
        ),
{
    let mut res: Vec<u8> = Vec::new();
    if protocol_version != 2 {
        res.push(0x00);
    }
    push_with_length(&mut res, name);
    push_with_length(
        &mut res,
        match password {
            Some(password) => password,
            None => "",
        },
    );
    res.push(
        if android {
            1
        } else {
            0
        },
    );
    assert(res@ =~= agent_hello(
        protocol_version,
        name@,
        match password {
            Some(password) => password@,
            None => ""@,
        },
        android,
    ));
    res
}

/// What an agent says on a data connection for a request.
pub open spec fn request_hello(name: Seq<char>, id: u32) -> Seq<u8> {
    seq![0x01u8] + with_length(name) + net::be32(id)
}

/// What an agent says on a data connection for a request.
pub fn write_request_hello(name: &str, id: u32) -> (res: Vec<u8>)
    ensures
        res@ == request_hello(name@, id),
{
    let mut res: Vec<u8> = Vec::new();
    res.push(0x01);
    push_with_length(&mut res, name);
    net::push_be32(&mut res, id);
    assert(res@ =~= request_hello(name@, id));
    res
}

/// What an agent says on a data connection for a token.
pub open spec fn token_hello(token: Seq<u8>, status: u8) -> Seq<u8> {
    seq![V2_DATA_CONNECTION] + token + seq![status]
}

/// What an agent says on a data connection for a token.
pub fn write_token_hello(token: &[u8; 16], status: u8) -> (res: Vec<u8>)
    ensures
        res@ == token_hello(token@, status),
{
    let mut res: Vec<u8> = Vec::new();
    res.push(V2_DATA_CONNECTION);
    res.extend_from_slice(token);
    res.push(status);
    assert(res@ =~= token_hello(token@, status));
    res
}

/// A report on the wire; none where it is too long.
pub open spec fn status_frame(status: Seq<char>) -> Option<Seq<u8>> {
    let bytes = encode_utf8(status);
    if bytes.len() > MAX_STATUS_BYTES {
        None
    } else {
        Some(seq![CMD_STATUS] + net::be16(bytes.len() as u16) + bytes)
    }
}

/// A report on the wire; none where it is too long.
pub fn send_device_status(status: &str) -> (res: Option<Vec<u8>>)
    ensures
        match res {
            Some(frame) => status_frame(status@) == Some(frame@),
            None => status_frame(status@) is None,
        },
{
    let bytes = text::to_bytes(status);
    if bytes.len() > MAX_STATUS_BYTES {
        return None;
    }
    let mut frame: Vec<u8> = Vec::new();
    frame.push(CMD_STATUS);
    net::push_be16(&mut frame, bytes.len() as u16);
    frame.extend_from_slice(bytes.as_slice());
    assert(frame@ =~= seq![CMD_STATUS] + net::be16(bytes@.len() as u16) + bytes@);
    Some(frame)
}

/// What an agent has reported last, and when.
#[derive(Debug)]
pub struct Reports {
    pub last: Option<String>,
    pub sent_at: u64,
}

/// Whether a report is due: it has changed, or the last one is a minute old.
pub open spec fn report_due(last: Option<Seq<char>>, sent_at: u64, status: Seq<char>, now: u64) -> bool {
    last != Some(status) || control::elapsed(sent_at, now) >= STATUS_REFRESH_INTERVAL
}

impl Reports {
    /// The last report by its characters.
    pub open spec fn last_text(self) -> Option<Seq<char>> {
        match self.last {
            Some(status) => Some(status@),
            None => None,
        }
    }

    /// Begins with the first report, if there is one: what is to be sent.
    pub fn begin(status: Option<String>, now: u64) -> (res: (Reports, Option<Vec<u8>>))
        ensures
            res.0.sent_at == now,
            match status {
                Some(status) => match (status_frame(status@), res.1) {
                    (Some(frame), Some(sent)) => sent@ == frame && res.0.last == Some(status),
                    (None, None) => res.0.last is None,
                    _ => false,
                },
                None => res.1 is None && res.0.last is None,
            },
    {
        match status {
            Some(status) => match send_device_status(status.as_str()) {
                Some(frame) => (Reports { last: Some(status), sent_at: now }, Some(frame)),
                None => (Reports { last: None, sent_at: now }, None),
            },
            None => (Reports { last: None, sent_at: now }, None),
        }
    }

    /// Takes the present report: what is to be sent, where it is due and not too long.
    pub fn report(&mut self, status: String, now: u64) -> (res: Option<Vec<u8>>)
        ensures
            if report_due(old(self).last_text(), old(self).sent_at, status@, now)
                && status_frame(status@) is Some {
                &&& res matches Some(sent) && status_frame(status@) == Some(sent@)
                &&& *final(self) == (Reports { last: Some(status), sent_at: now })
            } else {
                res is None && *final(self) == *old(self)
            },
    {
        let changed = match &self.last {
            Some(last) => !text::same_text(last.as_str(), status.as_str()),
            None => true,
        };
        if !changed && control::elapsed_since(self.sent_at, now) < STATUS_REFRESH_INTERVAL {
            return None;
        }
        match send_device_status(status.as_str()) {
            Some(frame) => {
                self.last = Some(status);
                self.sent_at = now;
                Some(frame)
            },
            None => None,
        }
    }
}

// ---------------------------------------------------------------------------------------------
// The server's commands
// ---------------------------------------------------------------------------------------------

/// A command from the server.
#[derive(Debug)]
pub enum ServerCommand {
    /// The server is alive.
    Ping,
    /// Open a data connection for this request.
    Require(u32),
    /// Connect to a target, and open a data connection under this token.
    Open([u8; 16], String),
    /// Start a UDP session with the server's port.
    Udp(u16),
    /// Change the device's public address.
    Reset,
    Unknown(u8),
}

/// `ServerCommand`, with texts by their characters.
pub enum ServerCommandView {
    Ping,
    Require(u32),
    Open([u8; 16], Seq<char>),
    Udp(u16),
    Reset,
    Unknown(u8),
}

impl ServerCommand {
    /// The command by its contents.
    pub open spec fn view(&self) -> ServerCommandView {
        match self {
            ServerCommand::Ping => ServerCommandView::Ping,
            ServerCommand::Require(id) => ServerCommandView::Require(*id),
            ServerCommand::Open(token, target) => ServerCommandView::Open(*token, target@),
            ServerCommand::Udp(port) => ServerCommandView::Udp(*port),
            ServerCommand::Reset => ServerCommandView::Reset,
            ServerCommand::Unknown(cmd) => ServerCommandView::Unknown(*cmd),
        }
    }
}

/// The command that bytes on a control connection are.
pub open spec fn command_of(b: Seq<u8>, protocol_version: u8) -> Progress<
    ServerCommandView,
    PacketError,
> {
    if b.len() < 1 {
        Progress::More(missing(b, 1))
    } else if b[0] == CMD_PING {
        Progress::Done { value: ServerCommandView::Ping, used: 1 }
    } else if b[0] == CMD_REQUIRE_CONN && protocol_version != 2 {
        if b.len() < 5 {
            Progress::More(missing(b, 5))
        } else {
            Progress::Done {
                value: ServerCommandView::Require(net::from_be32(b[1], b[2], b[3], b[4])),
                used: 5,
            }
        }
    } else if b[0] == CMD_OPEN && protocol_version == 2 {
        if b.len() < 17 {
            Progress::More(missing(b, 17))
        } else {
            match socks5::target_of(b.skip(17), false) {
                Progress::More(n) => Progress::More(n),
                Progress::Done { value, used } => Progress::Done {
                    value: ServerCommandView::Open(data::token_at(b.skip(1)), value),
                    used: (17 + used) as usize,
                },
                Progress::Failed(error) => Progress::Failed(error),
            }
        }
    } else if b[0] == CMD_UDP_SESSION {
        if b.len() < 3 {
            Progress::More(missing(b, 3))
        } else {
            Progress::Done {
                value: ServerCommandView::Udp(net::from_be16(b[1], b[2])),
                used: 3,
            }
        }
    } else if b[0] == CMD_RESET_IP {
        Progress::Done { value: ServerCommandView::Reset, used: 1 }
    } else {
        Progress::Done { value: ServerCommandView::Unknown(b[0]), used: 1 }
    }
}

/// The contents inside a reading result.
pub open spec fn command_view(p: Progress<ServerCommand, PacketError>) -> Progress<
    ServerCommandView,
    PacketError,
> {
    match p {
        Progress::More(n) => Progress::More(n),
        Progress::Done { value, used } => Progress::Done { value: value@, used },
        Progress::Failed(error) => Progress::Failed(error),
    }
}

/// The command that bytes on a control connection are.
pub fn read_command(b: &[u8], protocol_version: u8) -> (res: Progress<ServerCommand, PacketError>)
    ensures
        command_view(res) == command_of(b@, protocol_version),
{
    let len: usize = b.len();
    if len < 1 {
        return Progress::More(1);
    }
    if b[0] == CMD_PING {
        Progress::Done { value: ServerCommand::Ping, used: 1 }
    } else if b[0] == CMD_REQUIRE_CONN && protocol_version != 2 {
        if len < 5 {
            Progress::More(5 - len)
        } else {
            Progress::Done {
                value: ServerCommand::Require(net::join_be32(b[1], b[2], b[3], b[4])),
                used: 5,
            }
        }
    } else if b[0] == CMD_OPEN && protocol_version == 2 {
        if len < 17 {
            return Progress::More(17 - len);
        }
        let behind = slice_subrange(b, 1, len);
        let rest = slice_subrange(b, 17, len);
        proof {
            assert(behind@ =~= b@.skip(1));
            assert(rest@ =~= b@.skip(17));
        }
        let token: [u8; 16] = data::take_token(behind);
        match socks5::read_target(rest, false) {
            Progress::More(n) => Progress::More(n),
            Progress::Done { value, used } => Progress::Done {
                value: ServerCommand::Open(token, value),
                used: 17 + used,
            },
            Progress::Failed(error) => Progress::Failed(error),
        }
    } else if b[0] == CMD_UDP_SESSION {
        if len < 3 {
            Progress::More(3 - len)
        } else {
            Progress::Done { value: ServerCommand::Udp(net::join_be16(b[1], b[2])), used: 3 }
        }
    } else if b[0] == CMD_RESET_IP {
        Progress::Done { value: ServerCommand::Reset, used: 1 }
    } else {
        Progress::Done { value: ServerCommand::Unknown(b[0]), used: 1 }
    }
}

// ---------------------------------------------------------------------------------------------
// Where an agent may connect to
// ---------------------------------------------------------------------------------------------

/// The IPv4 addresses that an agent does not connect to: its own, those of its local networks,
/// and none at all.
pub open spec fn blocked_v4(ip: net::Ipv4Addr) -> bool {
    ||| ip.loopback()
    ||| ip.private()
    ||| ip.link_local()
    ||| ip.octets() == seq![0u8, 0, 0, 0]
    ||| ip.octets() == seq![255u8, 255, 255, 255]
    ||| ip.carrier_shared()
}

/// The addresses and ports that an agent does not connect to. An IPv6 address that stands for an
/// IPv4 one is treated as that; mail is never sent.
pub open spec fn blocked(addr: SocketAddr) -> bool {
    addr.port_spec() == 25 || match addr.ip_spec() {
        IpAddr::V4(ip) => blocked_v4(ip),
        IpAddr::V6(ip) => {
            ||| ip.loopback()
            ||| ip.unspecified()
            ||| ip.unique_local()
            ||| ip.link_local()
            ||| (ip.embedded() matches Some(ipv4) && blocked_v4(ipv4))
        },
    }
}

/// Whether an agent does not connect to an IPv4 address.
fn blocks_v4(ip: net::Ipv4Addr) -> (res: bool)
    ensures
        res == blocked_v4(ip),
{
    let unspecified = ip.a == 0 && ip.b == 0 && ip.c == 0 && ip.d == 0;
    let broadcast = ip.a == 255 && ip.b == 255 && ip.c == 255 && ip.d == 255;
    proof {
        let o = ip.octets();
        assert(o[0] == ip.a && o[1] == ip.b && o[2] == ip.c && o[3] == ip.d);
        if unspecified {
            assert(o =~= seq![0u8, 0, 0, 0]);
        }
        if broadcast {
            assert(o =~= seq![255u8, 255, 255, 255]);
        }
    }
    ip.is_loopback() || ip.is_private() || (ip.a == 169 && ip.b == 254) || unspecified || broadcast
        || (ip.a == 100 && 64 <= ip.b && ip.b <= 127)
}

/// Whether an agent does not connect to an address.
pub fn blocked_egress(address: SocketAddr) -> (res: bool)
    ensures
        res == blocked(address),
{
    if address.port() == 25 {
        return true;
    }
    match address.ip() {
        IpAddr::V4(ip) => blocks_v4(ip),
        IpAddr::V6(ip) => {
            if ip.is_loopback() || ip.is_unspecified() || (0xfc00 <= ip.s0 && ip.s0 <= 0xfdff) || (
            0xfe80 <= ip.s0 && ip.s0 <= 0xfebf) {
                return true;
            }
            match ip.to_ipv4() {
                Some(ipv4) => blocks_v4(ipv4),
                None => false,
            }
        },
    }
}

/// A search among the addresses of a target for one that can be reached.
#[derive(Debug)]
pub struct DialPlan {
    pub candidates: Vec<SocketAddr>,
    /// How many candidates were looked at.
    pub next: usize,
    /// Whether one of them was blocked.
    pub blocked: bool,
}

/// What is to be done next for a target.
#[derive(Clone, Copy, Debug, PartialEq, Eq, Structural)]
pub enum DialStep {
    /// Connect to this address.
    Try(SocketAddr),
    /// Report this status.
    Fail(u8),
}

/// The first index from `i` on of an address that is not blocked; the length where there is none.
pub open spec fn next_allowed(candidates: Seq<SocketAddr>, i: int) -> int
    decreases candidates.len() - i,
{
    if 0 <= i < candidates.len() && blocked(candidates[i]) {
        next_allowed(candidates, i + 1)
    } else {
        i
    }
}

/// What a search among addresses comes to next: how many were looked at, whether one was blocked,
/// and what is to be done.
pub open spec fn dialled(candidates: Seq<SocketAddr>, next: int, was_blocked: bool) -> (
    int,
    bool,
    DialStep,
) {
    let i = next_allowed(candidates, next);
    let skipped = was_blocked || i > next;
    if i < candidates.len() {
        (i + 1, skipped, DialStep::Try(candidates[i]))
    } else {
        (
            candidates.len() as int,
            skipped,
            DialStep::Fail(
                if skipped {
                    V2_STATUS_BLOCKED
                } else {
                    V2_STATUS_UNREACHABLE
                },
            ),
        )
    }
}

impl DialPlan {
    /// A search among addresses; none where the target could not be resolved.
    pub fn new(candidates: Option<Vec<SocketAddr>>) -> (res: DialPlan)
        ensures
            res.next == 0,
            !res.blocked,
            match candidates {
                Some(candidates) => res.candidates == candidates,
                None => res.candidates@ == Seq::<SocketAddr>::empty(),
            },
    {
        DialPlan {
            candidates: match candidates {
                Some(candidates) => candidates,
                None => Vec::new(),
            },
            next: 0,
            blocked: false,
        }
    }

    /// The next address that is not blocked; where there is none left, whether one was blocked.
    pub fn connect_v2_target(&mut self) -> (res: DialStep)
        requires
            old(self).next <= old(self).candidates@.len(),
        ensures
            final(self).next <= final(self).candidates@.len(),
            final(self).candidates == old(self).candidates,
            dialled(old(self).candidates@, old(self).next as int, old(self).blocked) == (
                final(self).next as int,
                final(self).blocked,
                res,
            ),
            ({
                let i = next_allowed(old(self).candidates@, old(self).next as int);
                let skipped = old(self).blocked || i > old(self).next;
                &&& final(self).blocked == skipped
                &&& if i < old(self).candidates@.len() {
                    res == DialStep::Try(old(self).candidates@[i]) && final(self).next == i + 1
                } else {
                    &&& res == DialStep::Fail(
                        if skipped {
                            V2_STATUS_BLOCKED
                        } else {
                            V2_STATUS_UNREACHABLE
                        },
                    )
                    &&& final(self).next == old(self).candidates@.len()
                }
            }),
    {
        let n: usize = self.candidates.len();
        let ghost target = next_allowed(self.candidates@, self.next as int);
        while self.next < n
            invariant
                n == self.candidates@.len(),
                self.candidates == old(self).candidates,
                old(self).next <= self.next <= n,
                self.blocked == (old(self).blocked || self.next > old(self).next),
                target == next_allowed(old(self).candidates@, old(self).next as int),
                target == next_allowed(self.candidates@, self.next as int),
            decreases n - self.next,
        {
            let address: SocketAddr = self.candidates[self.next];
            if !blocked_egress(address) {
                self.next = self.next + 1;
                return DialStep::Try(address);
            }
            self.next = self.next + 1;
            self.blocked = true;
        }
        if self.blocked {
            DialStep::Fail(V2_STATUS_BLOCKED)
        } else {
            DialStep::Fail(V2_STATUS_UNREACHABLE)
        }
    }
}

/// An agent never connects to an address that is blocked, whatever a name resolves to.
pub proof fn law_blocked_addresses_are_skipped(candidates: Seq<SocketAddr>, i: int)
    requires
        0 <= i,
    ensures
        i <= next_allowed(candidates, i),
        next_allowed(candidates, i) < candidates.len() ==> !blocked(
            candidates[next_allowed(candidates, i)],
        ),
        forall|k: int| i <= k < next_allowed(candidates, i) && k < candidates.len() ==> blocked(
            #[trigger] candidates[k],
        ),
    decreases candidates.len() - i,
{
    if i < candidates.len() && blocked(candidates[i]) {
        law_blocked_addresses_are_skipped(candidates, i + 1);
    }
}

/// An IPv4 address in IPv6 clothing is blocked where it is blocked itself. One that is mapped into
/// IPv6 is blocked nowhere else either.
pub proof fn law_disguised_addresses_are_blocked(ip: net::Ipv6Addr, ipv4: net::Ipv4Addr, port: u16)
    requires
        ip.embedded() == Some(ipv4),
    ensures
        blocked(SocketAddr::of(IpAddr::V4(ipv4), port)) ==> blocked(
            SocketAddr::of(IpAddr::V6(ip), port),
        ),
        ip.mapped() is Some ==> blocked(SocketAddr::of(IpAddr::V6(ip), port)) == blocked(
            SocketAddr::of(IpAddr::V4(ipv4), port),
        ),
{
    let s = ip.segments();
    assert(s[0] == ip.s0 && s[5] == ip.s5);
}

/// What an agent tells the server of its search for the target.
pub open spec fn status_told(search: Option<Result<(), u8>>) -> u8 {
    match search {
        Some(Ok(_)) => 0,
        Some(Err(status)) => status,
        None => 4,
    }
}

/// The status that an agent reports for a target: how the search ended, or that it took too long.
pub fn open_status(search: Option<Result<(), u8>>) -> (res: u8)
    ensures
        res == status_told(search),
        res == match search {
            Some(Ok(_)) => V2_STATUS_OK,
            Some(Err(status)) => status,
            None => V2_STATUS_UNREACHABLE,
        },
{
    match search {
        Some(Ok(_)) => V2_STATUS_OK,
        Some(Err(status)) => status,
        None => V2_STATUS_UNREACHABLE,
    }
}

// ---------------------------------------------------------------------------------------------
// Dialling again
// ---------------------------------------------------------------------------------------------

/// How long an agent waits at first before it dials again, in milliseconds.
pub const RECONNECT_MIN_DELAY: u64 = 1_000;

/// How long an agent waits at most before it dials again, in milliseconds.
pub const RECONNECT_MAX_DELAY: u64 = 30_000;

/// The delay before an agent dials again: the base, and up to a quarter of it by chance.
pub open spec fn delay_after(base: u64, entropy: u32) -> int {
    let quarter = if base / 4 >= 1 {
        base as int / 4
    } else {
        1
    };
    base + entropy as int % (quarter + 1)
}

/// The delay before an agent dials again, in milliseconds.
pub fn reconnect_delay(base: u64, entropy: u32) -> (res: u64)
    requires
        base + base / 4 + 1 <= u64::MAX,
    ensures
        res == delay_after(base, entropy),
{
    let quarter: u64 = if base / 4 >= 1 {
        base / 4
    } else {
        1
    };
    let extra: u64 = (entropy as u64) % (quarter + 1);
    assert(extra <= quarter);
    base + extra
}

/// The base of the delay after the next failure: twice as long, up to a limit.
pub open spec fn backoff_after(backoff: u64) -> u64 {
    if backoff >= RECONNECT_MAX_DELAY / 2 {
        RECONNECT_MAX_DELAY
    } else {
        (backoff * 2) as u64
    }
}

/// The base of the delay after the next failure, in milliseconds.
pub fn next_backoff(backoff: u64) -> (res: u64)
    ensures
        res == backoff_after(backoff),
{
    if backoff >= RECONNECT_MAX_DELAY / 2 {
        RECONNECT_MAX_DELAY
    } else {
        backoff * 2
    }
}

/// The delay is at least the base, and at most a quarter longer.
pub proof fn law_delay_is_bounded(base: u64, entropy: u32)
    ensures
        base <= delay_after(base, entropy),
        base >= 4 ==> delay_after(base, entropy) <= base + base / 4,
        base < 4 ==> delay_after(base, entropy) <= base + 1,
        delay_after(base, 0) == base,
{
    let quarter = if base / 4 >= 1 {
        base as int / 4
    } else {
        1
    };
    assert(0 <= entropy as int % (quarter + 1) <= quarter) by (nonlinear_arith)
        requires
            quarter >= 1,
    ;
    assert(0int % (quarter + 1) == 0) by (nonlinear_arith)
        requires
            quarter >= 1,
    ;
}

/// The base after a number of failures.
pub open spec fn backoff_at(failures: nat) -> u64
    decreases failures,
{
    if failures == 0 {
        RECONNECT_MIN_DELAY
    } else {
        backoff_after(backoff_at((failures - 1) as nat))
    }
}

/// The base never leaves its limits, does not shrink, and reaches the upper limit with the fifth
/// failure.
pub proof fn law_backoff_grows_to_its_limit(failures: nat)
    ensures
        RECONNECT_MIN_DELAY <= backoff_at(failures) <= RECONNECT_MAX_DELAY,
        backoff_at(failures) <= backoff_at(failures + 1),
        failures >= 5 ==> backoff_at(failures) == RECONNECT_MAX_DELAY,
    decreases failures,
{
    if failures > 0 {
        law_backoff_grows_to_its_limit((failures - 1) as nat);
        if failures == 5 {
            reveal_with_fuel(backoff_at, 6);
        }
    }
}

// ---------------------------------------------------------------------------------------------
// What an agent writes, and where it may go
// ---------------------------------------------------------------------------------------------

/// An agent introduces itself with its name and its password, each behind its length, and what it
/// runs on: 1 for Android, 0 for anything else. Before that stands a 0 where it speaks version 1.
pub proof fn law_hello_on_the_wire(
    version: u8,
    name: Seq<char>,
    password: Seq<char>,
    id: u32,
    token: [u8; 16],
    status: u8,
)
    requires
        encode_utf8(name).len() <= 255,
        encode_utf8(password).len() <= 255,
    ensures
        ({
            let x = encode_utf8(name);
            let y = encode_utf8(password);
            let said = seq![x.len() as u8] + x + seq![y.len() as u8] + y;
            &&& agent_hello(2, name, password, true) == said + seq![1u8]
            &&& agent_hello(2, name, password, false) == said + seq![0u8]
            &&& version != 2 ==> agent_hello(version, name, password, true) == seq![0u8] + said
                + seq![1u8]
            &&& version != 2 ==> agent_hello(version, name, password, false) == seq![0u8] + said
                + seq![0u8]
            &&& request_hello(name, id) == seq![1u8, x.len() as u8] + x + seq![
                (id / 0x100_0000) as u8,
                (id / 0x1_0000 % 256) as u8,
                (id / 256 % 256) as u8,
                (id % 256) as u8,
            ]
            &&& token_hello(token@, status) == seq![2u8] + token@ + seq![status]
        }),
{
    let x = encode_utf8(name);
    let y = encode_utf8(password);
    let said = seq![x.len() as u8] + x + seq![y.len() as u8] + y;
    assert(agent_hello(2, name, password, true) =~= said + seq![1u8]);
    assert(agent_hello(2, name, password, false) =~= said + seq![0u8]);
    if version != 2 {
        assert(agent_hello(version, name, password, true) =~= seq![0u8] + said + seq![1u8]);
        assert(agent_hello(version, name, password, false) =~= seq![0u8] + said + seq![0u8]);
    }
    assert(request_hello(name, id) =~= seq![1u8, x.len() as u8] + x + seq![
        (id / 0x100_0000) as u8,
        (id / 0x1_0000 % 256) as u8,
        (id / 256 % 256) as u8,
        (id % 256) as u8,
    ]);
}

/// A report is 0x11, its length, highest byte first, and its bytes; one of more than 1024 is not
/// sent. The same report is due again after a minute, another one at once.
pub proof fn law_report_on_the_wire(status: Seq<char>, last: Seq<char>, sent_at: u64, now: u64)
    ensures
        ({
            let bytes = encode_utf8(status);
            &&& bytes.len() <= 1024 ==> status_frame(status) == Some(
                seq![0x11u8, (bytes.len() / 256) as u8, (bytes.len() % 256) as u8] + bytes,
            )
            &&& bytes.len() > 1024 ==> status_frame(status) is None
            &&& last != status ==> report_due(Some(last), sent_at, status, now)
            &&& report_due(None, sent_at, status, now)
            &&& report_due(Some(status), sent_at, status, now) <==> now - sent_at
                >= 60_000_000_000
        }),
{
    let bytes = encode_utf8(status);
    if bytes.len() <= 1024 {
        assert(seq![0x11u8] + net::be16(bytes.len() as u16) + bytes =~= seq![
            0x11u8,
            (bytes.len() / 256) as u8,
            (bytes.len() % 256) as u8,
        ] + bytes);
    }
}

/// What a server writes is read byte by byte: 6 is a ping, 1 with a number a request for a data
/// connection in version 1, 3 with a port a UDP session, 4 a change of address; everything else
/// but 0x10 in version 2 means nothing.
pub proof fn law_servers_commands(
    version: u8,
    first: u8,
    b0: u8,
    b1: u8,
    b2: u8,
    b3: u8,
    rest: Seq<u8>,
)
    ensures
        command_of(seq![6u8] + rest, version) == (Progress::<
            ServerCommandView,
            PacketError,
        >::Done { value: ServerCommandView::Ping, used: 1 }),
        version != 2 ==> command_of(seq![1u8, b0, b1, b2, b3] + rest, version) == (Progress::<
            ServerCommandView,
            PacketError,
        >::Done {
            value: ServerCommandView::Require(
                (b0 * 0x100_0000 + b1 * 0x1_0000 + b2 * 256 + b3) as u32,
            ),
            used: 5,
        }),
        command_of(seq![3u8, b0, b1] + rest, version) == (Progress::<
            ServerCommandView,
            PacketError,
        >::Done { value: ServerCommandView::Udp((b0 * 256 + b1) as u16), used: 3 }),
        command_of(seq![4u8] + rest, version) == (Progress::<
            ServerCommandView,
            PacketError,
        >::Done { value: ServerCommandView::Reset, used: 1 }),
        first != 6 && first != 3 && first != 4 && (first != 1 || version == 2) && (first != 0x10
            || version != 2) ==> command_of(seq![first] + rest, version) == (Progress::<
            ServerCommandView,
            PacketError,
        >::Done { value: ServerCommandView::Unknown(first), used: 1 }),
{
    assert((seq![6u8] + rest)[0] == 6);
    assert((seq![4u8] + rest)[0] == 4);
    assert((seq![first] + rest)[0] == first);
    let r = seq![1u8, b0, b1, b2, b3] + rest;
    assert(r[0] == 1 && r[1] == b0 && r[2] == b1 && r[3] == b2 && r[4] == b3);
    let u = seq![3u8, b0, b1] + rest;
    assert(u[0] == 3 && u[1] == b0 && u[2] == b1);
}

/// A command to open a connection is read with its token and with the target behind it.
pub proof fn law_open_command_is_read(token: [u8; 16], host: Seq<char>, hi: u8, lo: u8, rest: Seq<u8>)
    requires
        1 <= encode_utf8(host).len() <= 255,
    ensures
        ({
            let name = encode_utf8(host);
            command_of(
                seq![0x10u8] + token@ + seq![3u8, name.len() as u8] + name + seq![hi, lo] + rest,
                2,
            ) == (Progress::<ServerCommandView, PacketError>::Done {
                value: ServerCommandView::Open(
                    token,
                    host + seq![':'] + text::decimal((hi * 256 + lo) as nat),
                ),
                used: (21 + name.len()) as usize,
            })
        }),
{
    let name = encode_utf8(host);
    let n = name.len() as int;
    let b = seq![0x10u8] + token@ + seq![3u8, n as u8] + name + seq![hi, lo] + rest;
    vstd::utf8::encode_utf8_valid_utf8(host);
    vstd::utf8::encode_utf8_decode_utf8(host);
    assert(b[0] == 0x10);
    let s = b.skip(17);
    assert(s[0] == 3 && s[1] == n);
    assert(s.subrange(2, 2 + n) =~= name);
    assert(s[2 + n] == hi && s[3 + n] == lo);
    assert(b.skip(1).take(16) =~= token@);
    data::lemma_token_at(b.skip(1), token);
}

/// Whatever part of a command has come, no more is asked for than belongs to it.
pub proof fn law_command_asks_for_no_more_than_comes(b: Seq<u8>, k: int, version: u8)
    requires
        command_of(b, version) matches Progress::Done { used, .. } && 0 <= k < used && b.len()
            <= usize::MAX,
    ensures
        ({
            let used = match command_of(b, version) {
                Progress::Done { used, .. } => used as int,
                _ => 0,
            };
            command_of(b.take(k), version) matches Progress::More(n) && 1 <= n && k + n <= used
                && used <= b.len()
        }),
{
    let c = b.take(k);
    if k >= 1 {
        assert(c[0] == b[0]);
        if b[0] == 0x10 && version == 2 {
            let s = b.skip(17);
            if k >= 17 {
                assert(c.skip(17) =~= s.take(k - 17));
                socks5::law_target_asks_for_no_more_than_comes(s, k - 17, false);
            } else {
                socks5::law_target_asks_for_no_more_than_comes(s, 0, false);
            }
        }
    } else if b[0] == 0x10 && version == 2 {
        socks5::law_target_asks_for_no_more_than_comes(b.skip(17), 0, false);
    }
}

/// An agent connects to no port 25, and to no address that is not of the public internet: not to
/// the machine itself, a private or link-local network, the network of a carrier, nowhere or
/// everywhere. Every other address may be dialled.
pub proof fn law_which_addresses_are_blocked(ip: net::Ipv4Addr, port: u16)
    ensures
        ({
            let n = ip.a * 0x100_0000 + ip.b * 0x1_0000 + ip.c * 0x100 + ip.d;
            blocked(SocketAddr::V4 { ip, port }) <==> {
                ||| port == 25
                ||| n == 0
                ||| n == 0xffff_ffff
                ||| 0x0a00_0000 <= n <= 0x0aff_ffff
                ||| 0x6440_0000 <= n <= 0x647f_ffff
                ||| 0x7f00_0000 <= n <= 0x7fff_ffff
                ||| 0xa9fe_0000 <= n <= 0xa9fe_ffff
                ||| 0xac10_0000 <= n <= 0xac1f_ffff
                ||| 0xc0a8_0000 <= n <= 0xc0a8_ffff
            }
        }),
{
    net::law_ipv4_ranges(ip);
    let n = ip.a * 0x100_0000 + ip.b * 0x1_0000 + ip.c * 0x100 + ip.d;
    if n == 0 {
        assert(ip.octets() =~= seq![0u8, 0, 0, 0]);
    }
    if n == 0xffff_ffff {
        assert(ip.octets() =~= seq![255u8, 255, 255, 255]);
    }
    if ip.octets() == seq![0u8, 0, 0, 0] {
        assert(ip.octets()[0] == 0 && ip.octets()[1] == 0 && ip.octets()[2] == 0 && ip.octets()[3]
            == 0);
    }
    if ip.octets() == seq![255u8, 255, 255, 255] {
        assert(ip.octets()[0] == 255 && ip.octets()[1] == 255 && ip.octets()[2] == 255
            && ip.octets()[3] == 255);
    }
}

/// The same of IPv6: port 25, the machine itself, nowhere, and the local networks fc00::/7 and
/// fe80::/10 are blocked, and an address of the public internet that holds no IPv4 address is
/// not.
pub proof fn law_which_ipv6_addresses_are_blocked(
    ip: net::Ipv6Addr,
    port: u16,
    flowinfo: u32,
    scope_id: u32,
)
    ensures
        ({
            let addr = SocketAddr::V6 { ip, port, flowinfo, scope_id };
            let first = ip.octets()[0];
            let second = ip.octets()[1];
            &&& port == 25 ==> blocked(addr)
            &&& first == 0xfc || first == 0xfd || (first == 0xfe && second / 64 == 2) ==> blocked(
                addr,
            )
            &&& ip.octets() == seq![0u8, 0, 0, 0, 0, 0, 0, 0, 0, 0, 0, 0, 0, 0, 0, 1] ==> blocked(
                addr,
            )
            &&& port != 25 && 0x20 <= first <= 0x3f ==> !blocked(addr)
        }),
{
    ip.lemma_octets();
    net::law_ipv6_ranges(ip);
    assert(ip.octets()[0] == (ip.s0 / 256) as u8);
    assert(ip.segments()[0] == ip.s0);
}

/// The addresses of a target are tried in order, each that is not blocked; when none is left, the
/// agent reports 2 where one was blocked and 4 where none was.
pub proof fn law_addresses_are_tried_in_order(
    candidates: Seq<SocketAddr>,
    next: int,
    was_blocked: bool,
)
    requires
        0 <= next <= candidates.len(),
    ensures
        ({
            let (after, skipped, step) = dialled(candidates, next, was_blocked);
            match step {
                DialStep::Try(addr) => {
                    &&& next < after <= candidates.len()
                    &&& addr == candidates[after - 1]
                    &&& !blocked(addr)
                    &&& forall|i: int| next <= i < after - 1 ==> blocked(#[trigger] candidates[i])
                    &&& skipped == (was_blocked || after - 1 > next)
                },
                DialStep::Fail(status) => {
                    &&& after == candidates.len()
                    &&& forall|i: int|
                        next <= i < candidates.len() ==> blocked(#[trigger] candidates[i])
                    &&& status == if was_blocked || next < candidates.len() {
                        2u8
                    } else {
                        4u8
                    }
                },
            }
        }),
    decreases candidates.len() - next,
{
    if next < candidates.len() && blocked(candidates[next]) {
        law_addresses_are_tried_in_order(candidates, next + 1, true);
        lemma_next_allowed(candidates, next + 1);
    }
}

proof fn lemma_next_allowed(candidates: Seq<SocketAddr>, i: int)
    requires
        0 <= i <= candidates.len(),
    ensures
        i <= next_allowed(candidates, i) <= candidates.len(),
    decreases candidates.len() - i,
{
    if i < candidates.len() && blocked(candidates[i]) {
        lemma_next_allowed(candidates, i + 1);
    }
}

/// An agent waits one second after its first failure, twice as long after each further one, and
/// never more than thirty, but for a quarter that is drawn on top.
pub proof fn law_backoff_doubles(backoff: u64, entropy: u32)
    requires
        backoff <= 30_000,
    ensures
        backoff_at(0) == 1_000,
        backoff * 2 <= 30_000 ==> backoff_after(backoff) == backoff * 2,
        backoff * 2 > 30_000 ==> backoff_after(backoff) == 30_000,
        4 <= backoff ==> backoff <= delay_after(backoff, entropy) <= backoff + backoff / 4,
{
    law_delay_is_bounded(backoff, entropy);
}

proof fn lemma_nothing_to_remove(s: Seq<char>, pattern: Seq<char>)
    requires
        pattern.len() > 0,
        forall|j: int| !text::stands_at(s, pattern, j),
    ensures
        text::without(s, pattern) == s,
    decreases s.len(),
{
    if s.len() >= pattern.len() {
        assert(!text::stands_at(s, pattern, 0));
        assert(s.take(pattern.len() as int) =~= s.subrange(0, pattern.len() as int));
        assert forall|j: int| !text::stands_at(s.skip(1), pattern, j) by {
            if text::stands_at(s.skip(1), pattern, j) {
                assert(s.subrange(j + 1, j + 1 + pattern.len()) =~= s.skip(1).subrange(
                    j,
                    j + pattern.len(),
                ));
                assert(text::stands_at(s, pattern, j + 1));
            }
        }
        lemma_nothing_to_remove(s.skip(1), pattern);
        assert(seq![s[0]] + s.skip(1) =~= s);
    }
}

proof fn lemma_no_scheme_in(host: Seq<char>)
    requires
        forall|i: int| 0 <= i < host.len() - 1 ==> #[trigger] host[i] != '/',
    ensures
        text::without(host, "http://"@) == host,
        text::without(host, "https://"@) == host,
        text::without("https://"@ + host, "http://"@) == "https://"@ + host,
{
    reveal_strlit("http://");
    reveal_strlit("https://");
    let a = "http://"@;
    let b = "https://"@;
    assert(a.len() == 7 && b.len() == 8);
    assert forall|j: int| !text::stands_at(host, a, j) by {
        if text::stands_at(host, a, j) {
            assert(host.subrange(j, j + 7)[5] == host[j + 5]);
        }
    }
    lemma_nothing_to_remove(host, a);
    assert forall|j: int| !text::stands_at(host, b, j) by {
        if text::stands_at(host, b, j) {
            assert(host.subrange(j, j + 8)[6] == host[j + 6]);
        }
    }
    lemma_nothing_to_remove(host, b);
    let s = b + host;
    assert forall|j: int| !text::stands_at(s, a, j) by {
        if text::stands_at(s, a, j) {
            let t = s.subrange(j, j + 7);
            assert(t[0] == s[j] && t[4] == s[j + 4] && t[5] == s[j + 5] && t[6] == s[j + 6]);
            assert(a[0] == 'h' && a[4] == ':' && a[5] == '/' && a[6] == '/');
            if j >= 3 {
                assert(s[j + 5] == host[j - 3]);
            } else if j == 0 {
                assert(b[4] == 's');
            } else if j == 1 {
                assert(b[1] == 't');
            } else if j == 2 {
                assert(b[6] == '/');
            }
        }
    }
    lemma_nothing_to_remove(s, a);
}

/// A server is dialled at its host and port, with or without a scheme before and a slash behind;
/// where it has no port, at 8080.
pub proof fn law_dialled_host(host: Seq<char>)
    requires
        forall|i: int| 0 <= i < host.len() ==> #[trigger] host[i] != '/',
    ensures
        ({
            let addr = if host.contains(':') {
                host
            } else {
                host + ":8080"@
            };
            &&& dialled_address(host) == addr
            &&& dialled_address("http://"@ + host) == addr
            &&& dialled_address("https://"@ + host) == addr
            &&& dialled_address(host + seq!['/']) == addr
            &&& dialled_address("http://"@ + host + seq!['/']) == addr
            &&& dialled_address("https://"@ + host + seq!['/']) == addr
        }),
{
    reveal_strlit("http://");
    reveal_strlit("https://");
    let a = "http://"@;
    let b = "https://"@;
    assert(a.len() == 7 && b.len() == 8);
    let slashed = host + seq!['/'];
    lemma_no_scheme_in(host);
    lemma_no_scheme_in(slashed);
    assert(slashed.drop_last() =~= host);
    assert((a + host).take(7) =~= a && (a + host).skip(7) =~= host);
    assert((a + slashed).take(7) =~= a && (a + slashed).skip(7) =~= slashed);
    assert((b + host).take(8) =~= b && (b + host).skip(8) =~= host);
    assert((b + slashed).take(8) =~= b && (b + slashed).skip(8) =~= slashed);
    assert(a + host + seq!['/'] =~= a + slashed);
    assert(b + host + seq!['/'] =~= b + slashed);
}

/// An agent that is connected tells 0, and the server takes that for a connection; one whose
/// search failed tells what the search came to, and one that ran out of time 4, and the server
/// takes neither for one.
pub proof fn law_told_status_is_understood(status: u8)
    ensures
        data::result_of(status_told(Some(Ok(())))) is Ok,
        data::result_of(status_told(None)) == Err::<(), u8>(4),
        status_told(Some(Err(status))) == status,
        status == 2 || status == 4 ==> data::result_of(status_told(Some(Err(status)))) == Err::<
            (),
            u8,
        >(status),
{
}

} // verus!
