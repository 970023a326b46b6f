//! Relaying a client's datagrams through its agent.
use vstd::prelude::*;

use crate::net::{IpAddr, SocketAddr};
use crate::socks5;
use crate::text;
use crate::tunnel::{SOCKS_PORT_MAX, SOCKS_PORT_MIN};

verus! {

/// The datagram by which an agent makes itself known, and keeps its way to the server open.
pub open spec fn hole_punch_bytes() -> Seq<u8> {
    seq![0x47u8, 0x52, 0x4f, 0x57, 0x42, 0x4f, 0x54, 0x5f, 0x48, 0x4f, 0x4c, 0x45]
}

/// The datagram by which an agent makes itself known.
pub fn hole_punch() -> (res: Vec<u8>)
    ensures
        res@ == hole_punch_bytes(),
{
    let res: Vec<u8> = vec![
        0x47,
        0x52,
        0x4f,
        0x57,
        0x42,
        0x4f,
        0x54,
        0x5f,
        0x48,
        0x4f,
        0x4c,
        0x45,
    ];
    assert(res@ =~= hole_punch_bytes());
    res
}

/// A relay between a client and its agent. Each is known by the address of its last datagram.
#[derive(Clone, Copy, Debug)]
pub struct UdpRelay {
    /// The address of the client's TCP connection.
    pub client_ip: IpAddr,
    pub client: Option<SocketAddr>,
    pub agent: Option<SocketAddr>,
}

/// What becomes of a datagram: the relay after it, and whom it goes to. A datagram from the
/// client's address is the client's; the hole punch is the agent's; one from the agent goes to
/// the client; any other goes nowhere.
pub open spec fn relayed(relay: UdpRelay, src: SocketAddr, payload: Seq<u8>) -> (
    UdpRelay,
    Option<SocketAddr>,
) {
    if src.ip_spec() == relay.client_ip {
        (UdpRelay { client: Some(src), ..relay }, relay.agent)
    } else if payload == hole_punch_bytes() {
        (UdpRelay { agent: Some(src), ..relay }, None)
    } else if relay.agent == Some(src) {
        (relay, relay.client)
    } else {
        (relay, None)
    }
}

impl UdpRelay {
    /// A relay for a client that has sent no datagram yet.
    pub fn new(client_ip: IpAddr) -> (res: UdpRelay)
        ensures
            res == (UdpRelay { client_ip, client: None, agent: None }),
    {
        UdpRelay { client_ip, client: None, agent: None }
    }

    /// Takes a datagram and says whom it goes to.
    pub fn receive(&mut self, src: SocketAddr, payload: &[u8]) -> (res: Option<SocketAddr>)
        ensures
            (*final(self), res) == relayed(*old(self), src, payload@),
    {
        if socks5::is_tunneled_udp_client(self.client_ip, src) {
            self.client = Some(src);
            self.agent
        } else if text::same_bytes(payload, hole_punch().as_slice()) {
            self.agent = Some(src);
            None
        } else if self.from_agent(src) {
            self.client
        } else {
            None
        }
    }

    /// Whether a datagram is the agent's.
    fn from_agent(&self, src: SocketAddr) -> (res: bool)
        ensures
            res == (self.agent == Some(src)),
    {
        match self.agent {
            Some(agent) => agent == src,
            None => false,
        }
    }
}

/// A stranger's datagram is never passed on: what goes to the agent comes from the client's
/// address, and what goes to the client comes from the agent.
pub proof fn law_strangers_are_not_relayed(relay: UdpRelay, src: SocketAddr, payload: Seq<u8>)
    ensures
        relayed(relay, src, payload).1 is Some ==> src.ip_spec() == relay.client_ip || relay.agent
            == Some(src),
        src.ip_spec() != relay.client_ip && payload != hole_punch_bytes() ==> relayed(
            relay,
            src,
            payload,
        ).0 == relay,
{
}

/// The port that a count gives: the ports that clients may use, one after another.
pub open spec fn udp_port(count: u32) -> u16 {
    (SOCKS_PORT_MIN + count % 100) as u16
}

/// Why no port was bound.
#[derive(Clone, Copy, Debug, PartialEq, Eq, Structural)]
pub enum BindFault {
    /// Every port is in use.
    AllInUse,
    /// Binding failed for another reason.
    Io,
}

/// What binding a port came to.
#[derive(Clone, Copy, Debug, PartialEq, Eq, Structural)]
pub enum BindOutcome {
    Bound,
    InUse,
    Failed,
}

/// What is to be done next for a port.
#[derive(Clone, Copy, Debug, PartialEq, Eq, Structural)]
pub enum BindStep {
    /// Try this port.
    Try(u16),
    /// It is bound.
    Done,
    /// There is none.
    GiveUp(BindFault),
}

/// A search for a port that is not in use.
#[derive(Clone, Copy, Debug, PartialEq, Eq, Structural)]
pub struct PortSearch {
    /// How many ports were tried.
    pub tries: u32,
}

/// Draws the next port; the count starts again where it outgrows its type.
fn draw_port(count: &mut u32) -> (res: u16)
    ensures
        res == udp_port(*old(count)),
        *final(count) == (if *old(count) == u32::MAX {
            0
        } else {
            (*old(count) + 1) as u32
        }),
{
    let port: u16 = SOCKS_PORT_MIN + (*count % 100) as u16;
    if *count == u32::MAX {
        *count = 0;
    } else {
        *count = *count + 1;
    }
    port
}

/// The count after a port was drawn.
pub open spec fn count_after(count: u32) -> u32 {
    if count == u32::MAX {
        0
    } else {
        (count + 1) as u32
    }
}

/// A search for a port once the last try is known: what is to be done, how many were tried, and
/// how many were handed out.
pub open spec fn searched(tries: u32, count: u32, outcome: Option<BindOutcome>) -> (
    BindStep,
    u32,
    u32,
) {
    let step = bind_step(tries, count, outcome);
    if step is Try {
        (step, (tries + 1) as u32, count_after(count))
    } else {
        (step, tries, count)
    }
}

/// What is to be done next: as many ports are tried as there are, while they are in use.
pub open spec fn bind_step(tries: u32, count: u32, outcome: Option<BindOutcome>) -> BindStep {
    match outcome {
        Some(BindOutcome::Bound) => BindStep::Done,
        Some(BindOutcome::Failed) => BindStep::GiveUp(BindFault::Io),
        _ => if tries < 100 {
            BindStep::Try(udp_port(count))
        } else {
            BindStep::GiveUp(BindFault::AllInUse)
        },
    }
}

impl PortSearch {
    /// A search in which no port was tried yet.
    pub fn new() -> (res: PortSearch)
        ensures
            res.tries == 0,
    {
        PortSearch { tries: 0 }
    }

    /// Takes what the last try came to, if there was one.
    pub fn bind_public_udp_socket(
        &mut self,
        count: &mut u32,
        outcome: Option<BindOutcome>,
    ) -> (res: BindStep)
        requires
            old(self).tries <= 100,
        ensures
            (res, final(self).tries, *final(count)) == searched(
                old(self).tries,
                *old(count),
                outcome,
            ),
            res == bind_step(old(self).tries, *old(count), outcome),
            final(self).tries == (if res is Try {
                (old(self).tries + 1) as u32
            } else {
                old(self).tries
            }),
            *final(count) == (if res is Try {
                count_after(*old(count))
            } else {
                *old(count)
            }),
    {
        match outcome {
            Some(BindOutcome::Bound) => BindStep::Done,
            Some(BindOutcome::Failed) => BindStep::GiveUp(BindFault::Io),
            _ => {
                if self.tries < 100 {
                    self.tries = self.tries + 1;
                    BindStep::Try(draw_port(count))
                } else {
                    BindStep::GiveUp(BindFault::AllInUse)
                }
            },
        }
    }
}

/// A hundred draws in a row try every port that clients may use, as long as the count does not
/// start again among them.
pub proof fn law_every_port_is_tried(count: u32, port: u16)
    requires
        count + 99 <= u32::MAX,
        SOCKS_PORT_MIN <= port <= SOCKS_PORT_MAX,
    ensures
        exists|i: int| 0 <= i < 100 && #[trigger] udp_port((count + i) as u32) == port,
{
    let wanted = port - SOCKS_PORT_MIN;
    let have = (count % 100) as int;
    let i = if wanted >= have {
        wanted - have
    } else {
        wanted - have + 100
    };
    assert((count + i) % 100 == wanted);
    assert(udp_port((count + i) as u32) == port);
}

/// Every port that is tried is one that clients may use.
pub proof fn law_tried_ports_are_allowed(count: u32)
    ensures
        SOCKS_PORT_MIN <= udp_port(count) <= SOCKS_PORT_MAX,
{
}

/// The first IPv4 address of a list.
pub open spec fn first_ipv4(addrs: Seq<SocketAddr>) -> Option<SocketAddr>
    decreases addrs.len(),
{
    if addrs.len() == 0 {
        None
    } else if addrs[0] is V4 {
        Some(addrs[0])
    } else {
        first_ipv4(addrs.skip(1))
    }
}

/// The first IPv4 address of a list.
pub fn find_ipv4(addrs: &[SocketAddr]) -> (res: Option<SocketAddr>)
    ensures
        res == first_ipv4(addrs@),
{
    let n: usize = addrs.len();
    let mut i: usize = 0;
    assert(addrs@.skip(0) =~= addrs@);
    while i < n
        invariant
            i <= n,
            n == addrs@.len(),
            first_ipv4(addrs@.skip(i as int)) == first_ipv4(addrs@),
        decreases n - i,
    {
        assert(addrs@.skip(i as int).skip(1) =~= addrs@.skip(i + 1));
        if addrs[i].is_ipv4() {
            return Some(addrs[i]);
        }
        i += 1;
    }
    None
}

/// The address that a client is told to send its datagrams to: the first IPv4 address of the
/// configured host, or the address at which the client reached the server where no host is
/// configured. Nothing where the host has no IPv4 address.
pub open spec fn public_address(
    configured: Option<Seq<SocketAddr>>,
    local: IpAddr,
    port: u16,
) -> Option<SocketAddr> {
    match configured {
        Some(addrs) => match first_ipv4(addrs) {
            Some(addr) => Some(SocketAddr::of(addr.ip_spec(), port)),
            None => None,
        },
        None => Some(SocketAddr::of(local, port)),
    }
}

/// The address that a client is told to send its datagrams to.
pub fn public_udp_addr(configured: Option<Vec<SocketAddr>>, local: IpAddr, port: u16) -> (res:
    Option<SocketAddr>)
    ensures
        res == public_address(
            match configured {
                Some(addrs) => Some(addrs@),
                None => None,
            },
            local,
            port,
        ),
{
    match configured {
        Some(addrs) => match find_ipv4(addrs.as_slice()) {
            Some(addr) => Some(SocketAddr::new(addr.ip(), port)),
            None => None,
        },
        None => Some(SocketAddr::new(local, port)),
    }
}

/// Once the client has sent and the agent has punched its hole, what the client sends, from any
/// port, goes to the agent, and what the agent sends goes to where the client last sent from.
pub proof fn law_both_ways_are_relayed(
    relay: UdpRelay,
    first: SocketAddr,
    agent: SocketAddr,
    last: SocketAddr,
    sent: Seq<u8>,
    asked: Seq<u8>,
    answer: Seq<u8>,
)
    requires
        first.ip_spec() == relay.client_ip,
        last.ip_spec() == relay.client_ip,
        agent.ip_spec() != relay.client_ip,
        answer != seq![71u8, 82, 79, 87, 66, 79, 84, 95, 72, 79, 76, 69],
    ensures
        ({
            let punch = seq![71u8, 82, 79, 87, 66, 79, 84, 95, 72, 79, 76, 69];
            let one = relayed(relay, first, sent);
            let two = relayed(one.0, agent, punch);
            let three = relayed(two.0, last, asked);
            let four = relayed(three.0, agent, answer);
            &&& one.1 == relay.agent
            &&& two.1 is None
            &&& three.1 == Some(agent)
            &&& four.1 == Some(last)
            &&& four.0.client == Some(last)
            &&& four.0.agent == Some(agent)
            &&& four.0.client_ip == relay.client_ip
        }),
{
}

/// A search for a port ends at the first that could be bound and at the first failure other than
/// that one is in use, and gives up after a hundred. The ports that it tries are 51300 to 51399,
/// one after another, then from the first again.
pub proof fn law_port_search(tries: u32, count: u32)
    ensures
        bind_step(tries, count, Some(BindOutcome::Bound)) == BindStep::Done,
        bind_step(tries, count, Some(BindOutcome::Failed)) == BindStep::GiveUp(BindFault::Io),
        forall|outcome: Option<BindOutcome>|
            outcome is None || outcome == Some(BindOutcome::InUse) ==> #[trigger] bind_step(
                tries,
                count,
                outcome,
            ) == if tries < 100 {
                BindStep::Try(udp_port(count))
            } else {
                BindStep::GiveUp(BindFault::AllInUse)
            },
        51300 <= udp_port(count) <= 51399,
        count < u32::MAX && udp_port(count) < 51399 ==> udp_port(count_after(count)) == udp_port(
            count,
        ) + 1,
        count < u32::MAX && udp_port(count) == 51399 ==> udp_port(count_after(count)) == 51300,
        udp_port(0) == 51300,
{
}

/// The address that clients are told is the first IPv4 one of the configured host, with the
/// relay's port, or the local one where no host is configured.
pub proof fn law_told_address(
    before: Seq<SocketAddr>,
    ip: crate::net::Ipv4Addr,
    other: u16,
    behind: Seq<SocketAddr>,
    local: IpAddr,
    port: u16,
)
    requires
        forall|i: int| 0 <= i < before.len() ==> (#[trigger] before[i]) is V6,
    ensures
        first_ipv4(before + seq![SocketAddr::V4 { ip, port: other }] + behind) == Some(
            SocketAddr::V4 { ip, port: other },
        ),
        public_address(
            Some(before + seq![SocketAddr::V4 { ip, port: other }] + behind),
            local,
            port,
        ) == Some(SocketAddr::V4 { ip, port }),
        first_ipv4(before) is None,
        public_address(Some(before), local, port) is None,
        public_address(None, IpAddr::V4(ip), port) == Some(SocketAddr::V4 { ip, port }),
    decreases before.len(),
{
    let found = SocketAddr::V4 { ip, port: other };
    let all = before + seq![found] + behind;
    if before.len() > 0 {
        assert(before[0] is V6);
        assert(all[0] == before[0]);
        assert(all.skip(1) =~= before.skip(1) + seq![found] + behind);
        assert forall|i: int| 0 <= i < before.skip(1).len() implies (#[trigger] before.skip(1)[i])
            is V6 by {
            assert(before.skip(1)[i] == before[i + 1]);
        }
        law_told_address(before.skip(1), ip, other, behind, local, port);
    } else {
        assert(all[0] == found);
    }
}

/// Every try is counted and takes the next port; when the search is over, no further port is
/// taken.
pub proof fn law_tries_are_counted(tries: u32, count: u32, outcome: Option<BindOutcome>)
    requires
        count < u32::MAX,
        tries <= 100,
    ensures
        ({
            let (step, tried, taken) = searched(tries, count, outcome);
            match step {
                BindStep::Try(port) => {
                    &&& outcome is None || outcome == Some(BindOutcome::InUse)
                    &&& tries < 100 && tried == tries + 1
                    &&& taken == count + 1
                    &&& port == 51300 + count % 100
                },
                BindStep::Done => outcome == Some(BindOutcome::Bound) && tried == tries && taken
                    == count,
                BindStep::GiveUp(_) => outcome != Some(BindOutcome::Bound) && tried == tries
                    && taken == count,
            }
        }),
{
}

} // verus!
