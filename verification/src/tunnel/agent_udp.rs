//! An agent's UDP session: datagrams between the server's relay and the targets.
use vstd::prelude::*;
use vstd::slice::slice_subrange;

use crate::address_text;
use crate::net::{self, Ipv4Addr, SocketAddr};
use crate::registry;
use crate::socks5::relay;
use crate::text;
use crate::tunnel::control::{elapsed, elapsed_since};
use crate::udp;

verus! {

/// How long a session may be silent: two minutes, in nanoseconds.
pub const AGENT_UDP_IDLE_TIMEOUT: u64 = 120_000_000_000;

/// How long a resolved name is remembered: five minutes, in nanoseconds.
pub const DNS_CACHE_TTL: u64 = 300_000_000_000;

/// The names that were resolved, each to its address and at its time in nanoseconds.
#[derive(Debug)]
pub struct DnsCache {
    pub names: dashmap::DashMap<String, (SocketAddr, u64)>,
}

impl DnsCache {
    /// What the cache holds.
    pub open spec fn contents(self) -> Map<Seq<char>, (SocketAddr, u64)> {
        registry::names(self.names)
    }

    /// Every address is an IPv4 one.
    pub open spec fn wf(self) -> bool {
        forall|name: Seq<char>| #[trigger]
            self.contents().contains_key(name) ==> self.contents()[name].0 is V4
    }

    /// An empty cache.
    pub fn new() -> (res: DnsCache)
        ensures
            res.wf(),
            res.contents() == Map::<Seq<char>, (SocketAddr, u64)>::empty(),
    {
        DnsCache { names: registry::names_new() }
    }
}

/// Whether a name was resolved not too long ago.
pub open spec fn remembered(
    cache: Map<Seq<char>, (SocketAddr, u64)>,
    name: Seq<char>,
    now: u64,
) -> Option<SocketAddr> {
    match cache.get(name) {
        Some((addr, at)) => if elapsed(at, now) < DNS_CACHE_TTL {
            Some(addr)
        } else {
            None
        },
        None => None,
    }
}

/// What becomes of a datagram.
#[derive(Debug)]
pub enum AgentUdpAction {
    /// Nothing.
    Ignore,
    /// What is behind this many bytes goes to an address.
    Send { to: SocketAddr, from: usize },
    /// What is behind this many bytes goes to an address of a name.
    Resolve { name: String, from: usize },
    /// These bytes go to the server.
    Forward(Vec<u8>),
}

/// `AgentUdpAction`, with texts and bytes by their contents.
pub enum AgentUdpActionView {
    Ignore,
    Send { to: SocketAddr, from: int },
    Resolve { name: Seq<char>, from: int },
    Forward(Seq<u8>),
}

impl AgentUdpAction {
    /// The action by its contents.
    pub open spec fn view(&self) -> AgentUdpActionView {
        match self {
            AgentUdpAction::Ignore => AgentUdpActionView::Ignore,
            AgentUdpAction::Send { to, from } => AgentUdpActionView::Send {
                to: *to,
                from: *from as int,
            },
            AgentUdpAction::Resolve { name, from } => AgentUdpActionView::Resolve {
                name: name@,
                from: *from as int,
            },
            AgentUdpAction::Forward(bytes) => AgentUdpActionView::Forward(bytes@),
        }
    }
}

/// The name in the header of a datagram from the server.
pub open spec fn target_name(b: Seq<u8>) -> Seq<char> {
    let n = b[4] as int;
    address_text::with_port(
        text::lossy_text(b.subrange(5, 5 + n)),
        net::from_be16(b[5 + n], b[6 + n]),
    )
}

/// What becomes of a datagram from the server: it goes to the IPv4 address in its header, or to
/// that of the name in it; with any other header, or an incomplete one, it is passed over.
pub open spec fn to_target(
    cache: Map<Seq<char>, (SocketAddr, u64)>,
    b: Seq<u8>,
    now: u64,
) -> AgentUdpActionView {
    if b.len() < 4 {
        AgentUdpActionView::Ignore
    } else if b[3] == 0x01 {
        if b.len() < 10 {
            AgentUdpActionView::Ignore
        } else {
            let ip = Ipv4Addr { a: b[4], b: b[5], c: b[6], d: b[7] };
            AgentUdpActionView::Send {
                to: SocketAddr::V4 { ip, port: net::from_be16(b[8], b[9]) },
                from: 10,
            }
        }
    } else if b[3] == 0x03 {
        if b.len() < 5 || b.len() < 7 + b[4] as int {
            AgentUdpActionView::Ignore
        } else {
            match remembered(cache, target_name(b), now) {
                Some(to) => AgentUdpActionView::Send { to, from: 7 + b[4] as int },
                None => AgentUdpActionView::Resolve {
                    name: target_name(b),
                    from: 7 + b[4] as int,
                },
            }
        }
    } else {
        AgentUdpActionView::Ignore
    }
}

/// What becomes of a datagram: those of the server go to their targets, and those of IPv4
/// addresses to the server, behind a header with their origin.
pub open spec fn agent_udp_outcome(
    cache: Map<Seq<char>, (SocketAddr, u64)>,
    server: SocketAddr,
    src: SocketAddr,
    b: Seq<u8>,
    now: u64,
) -> AgentUdpActionView {
    if src == server {
        to_target(cache, b, now)
    } else if src is V4 {
        AgentUdpActionView::Forward(udp::framed(src, b))
    } else {
        AgentUdpActionView::Ignore
    }
}

/// A cache without a name that was resolved too long ago, where it is asked for.
pub open spec fn forgotten(
    cache: Map<Seq<char>, (SocketAddr, u64)>,
    asked: Option<Seq<char>>,
    now: u64,
) -> Map<Seq<char>, (SocketAddr, u64)> {
    match asked {
        Some(name) => if remembered(cache, name, now) is None {
            cache.remove(name)
        } else {
            cache
        },
        None => cache,
    }
}

/// The name that a datagram from the server asks for.
pub open spec fn asked_name(server: SocketAddr, src: SocketAddr, b: Seq<u8>) -> Option<Seq<char>> {
    if src == server && b.len() >= 5 && b[3] == 0x03 && b.len() >= 7 + b[4] as int {
        Some(target_name(b))
    } else {
        None
    }
}

/// The address that a name was resolved to, if that was not too long ago; elsewhere it is
/// forgotten.
fn recall(cache: &mut DnsCache, name: &str, now: u64) -> (res: Option<SocketAddr>)
    requires
        old(cache).wf(),
    ensures
        final(cache).wf(),
        res == remembered(old(cache).contents(), name@, now),
        final(cache).contents() == forgotten(old(cache).contents(), Some(name@), now),
        res matches Some(addr) ==> addr is V4,
{
    match registry::names_get(&cache.names, name) {
        Some((addr, at)) => {
            if elapsed_since(at, now) < DNS_CACHE_TTL {
                Some(addr)
            } else {
                registry::names_remove(&mut cache.names, name);
                None
            }
        },
        None => {
            assert(cache.contents() =~= cache.contents().remove(name@));
            None
        },
    }
}

/// Takes a datagram.
pub fn handle_agent_udp_datagram(
    cache: &mut DnsCache,
    server: SocketAddr,
    src: SocketAddr,
    b: &[u8],
    now: u64,
) -> (res: AgentUdpAction)
    requires
        old(cache).wf(),
    ensures
        final(cache).wf(),
        res@ == agent_udp_outcome(old(cache).contents(), server, src, b@, now),
        final(cache).contents() == forgotten(
            old(cache).contents(),
            asked_name(server, src, b@),
            now,
        ),
        res matches AgentUdpAction::Send { to, from } ==> to is V4 && from <= b@.len(),
        res matches AgentUdpAction::Resolve { from, .. } ==> from <= b@.len(),
{
    if src != server {
        if src.is_ipv4() {
            return AgentUdpAction::Forward(udp::frame(src, b));
        }
        return AgentUdpAction::Ignore;
    }
    let len: usize = b.len();
    if len < 4 {
        return AgentUdpAction::Ignore;
    }
    if b[3] == 0x01 {
        if len < 10 {
            return AgentUdpAction::Ignore;
        }
        let ip = Ipv4Addr { a: b[4], b: b[5], c: b[6], d: b[7] };
        let port: u16 = net::join_be16(b[8], b[9]);
        AgentUdpAction::Send { to: SocketAddr::V4 { ip, port }, from: 10 }
    } else if b[3] == 0x03 {
        if len < 5 {
            return AgentUdpAction::Ignore;
        }
        let n: usize = b[4] as usize;
        if len < 7 + n {
            return AgentUdpAction::Ignore;
        }
        let host = text::string_from_utf8_lossy(slice_subrange(b, 5, 5 + n));
        let port: u16 = net::join_be16(b[5 + n], b[6 + n]);
        let name = udp::name_target(host.as_str(), port);
        match recall(cache, name.as_str(), now) {
            Some(to) => AgentUdpAction::Send { to, from: 7 + n },
            None => AgentUdpAction::Resolve { name, from: 7 + n },
        }
    } else {
        AgentUdpAction::Ignore
    }
}

/// What is remembered once a name was resolved, and where its datagram goes.
pub open spec fn resolved_to(
    cache: Map<Seq<char>, (SocketAddr, u64)>,
    name: Seq<char>,
    addrs: Option<Seq<SocketAddr>>,
    now: u64,
) -> (Map<Seq<char>, (SocketAddr, u64)>, Option<SocketAddr>) {
    match addrs {
        Some(addrs) => match relay::first_ipv4(addrs) {
            Some(addr) => (cache.insert(name, (addr, now)), Some(addr)),
            None => (cache, None),
        },
        None => (cache, None),
    }
}

/// Takes the addresses that a name was resolved to, if it was: the first IPv4 address is
/// remembered and used.
pub fn resolved(
    cache: &mut DnsCache,
    name: String,
    addrs: Option<Vec<SocketAddr>>,
    now: u64,
) -> (res: Option<SocketAddr>)
    requires
        old(cache).wf(),
    ensures
        final(cache).wf(),
        (final(cache).contents(), res) == resolved_to(
            old(cache).contents(),
            name@,
            match addrs {
                Some(addrs) => Some(addrs@),
                None => None,
            },
            now,
        ),
        res == match addrs {
            Some(addrs) => relay::first_ipv4(addrs@),
            None => None,
        },
        final(cache).contents() == match res {
            Some(addr) => old(cache).contents().insert(name@, (addr, now)),
            None => old(cache).contents(),
        },
        res matches Some(addr) ==> addr is V4,
{
    let found: Option<SocketAddr> = match addrs {
        Some(addrs) => relay::find_ipv4(addrs.as_slice()),
        None => None,
    };
    if let Some(addr) = found {
        proof {
            lemma_first_ipv4(addrs->0@);
        }
        registry::names_insert(&mut cache.names, name, (addr, now));
    }
    found
}

proof fn lemma_first_ipv4(addrs: Seq<SocketAddr>)
    ensures
        relay::first_ipv4(addrs) matches Some(addr) ==> addr is V4,
    decreases addrs.len(),
{
    if addrs.len() > 0 {
        lemma_first_ipv4(addrs.skip(1));
    }
}

/// Whether a session has been idle for too long.
pub open spec fn session_over(last_activity: u64, now: u64) -> bool {
    elapsed(last_activity, now) >= AGENT_UDP_IDLE_TIMEOUT
}

/// Whether a session that was last used at one time ends at another.
pub fn is_session_over(last_activity: u64, now: u64) -> (res: bool)
    ensures
        res == session_over(last_activity, now),
        res == (elapsed(last_activity, now) >= AGENT_UDP_IDLE_TIMEOUT),
{
    elapsed_since(last_activity, now) >= AGENT_UDP_IDLE_TIMEOUT
}

/// A name that was just resolved is used without asking again for five minutes.
pub proof fn law_resolved_name_is_remembered(
    cache: Map<Seq<char>, (SocketAddr, u64)>,
    name: Seq<char>,
    addr: SocketAddr,
    at: u64,
    now: u64,
)
    requires
        at <= now,
    ensures
        now < at + DNS_CACHE_TTL ==> remembered(cache.insert(name, (addr, at)), name, now) == Some(
            addr,
        ),
        now >= at + DNS_CACHE_TTL ==> remembered(cache.insert(name, (addr, at)), name, now)
            is None,
{
}

/// What the server relays with an IPv4 header goes to the address in the header, and what is sent
/// there is exactly what lies behind it.
pub proof fn law_relayed_payload_goes_to_the_address(
    cache: Map<Seq<char>, (SocketAddr, u64)>,
    server: SocketAddr,
    lead: Seq<u8>,
    ip: Ipv4Addr,
    hi: u8,
    lo: u8,
    payload: Seq<u8>,
    now: u64,
)
    requires
        lead.len() == 3,
    ensures
        ({
            let b = lead + seq![1u8, ip.a, ip.b, ip.c, ip.d, hi, lo] + payload;
            agent_udp_outcome(cache, server, server, b, now) matches AgentUdpActionView::Send {
                to,
                from,
            } && to == (SocketAddr::V4 { ip, port: (hi * 256 + lo) as u16 }) && b.skip(from)
                == payload
        }),
{
    let b = lead + seq![1u8, ip.a, ip.b, ip.c, ip.d, hi, lo] + payload;
    assert(b[3] == 1 && b[4] == ip.a && b[5] == ip.b && b[6] == ip.c && b[7] == ip.d && b[8] == hi
        && b[9] == lo);
    assert(b.skip(10) =~= payload);
}

/// What the server relays with a host name in its header is sent to the address that the name was
/// resolved to less than five minutes ago, and else resolved by that name. Either way what is
/// sent is exactly what lies behind the header.
pub proof fn law_relayed_payload_goes_to_the_name(
    cache: Map<Seq<char>, (SocketAddr, u64)>,
    server: SocketAddr,
    lead: Seq<u8>,
    host: Seq<u8>,
    hi: u8,
    lo: u8,
    payload: Seq<u8>,
    now: u64,
)
    requires
        lead.len() == 3,
        host.len() <= 255,
    ensures
        ({
            let b = lead + seq![3u8, host.len() as u8] + host + seq![hi, lo] + payload;
            let name = text::lossy_text(host) + seq![':'] + text::decimal((hi * 256 + lo) as nat);
            let fresh = cache.contains_key(name) && now - cache[name].1 < 300_000_000_000;
            match agent_udp_outcome(cache, server, server, b, now) {
                AgentUdpActionView::Send { to, from } => fresh && to == cache[name].0 && b.skip(
                    from,
                ) == payload,
                AgentUdpActionView::Resolve { name: asked, from } => !fresh && asked == name
                    && b.skip(from) == payload,
                _ => false,
            }
        }),
{
    let n = host.len() as int;
    let b = lead + seq![3u8, n as u8] + host + seq![hi, lo] + payload;
    assert(b[3] == 3 && b[4] == n);
    assert(b.subrange(5, 5 + n) =~= host);
    assert(b[5 + n] == hi && b[6 + n] == lo);
    assert(b.skip(7 + n) =~= payload);
}

/// What comes from anybody but the server is handed to the server behind three zeros, the
/// sender's address and its port, byte for byte; what comes from an IPv6 address is not.
pub proof fn law_answers_go_to_the_server(
    cache: Map<Seq<char>, (SocketAddr, u64)>,
    server: SocketAddr,
    src: SocketAddr,
    b: Seq<u8>,
    now: u64,
)
    requires
        src != server,
    ensures
        match src {
            SocketAddr::V4 { ip, port } => agent_udp_outcome(cache, server, src, b, now)
                == AgentUdpActionView::Forward(
                seq![
                    0u8,
                    0u8,
                    0u8,
                    1u8,
                    ip.a,
                    ip.b,
                    ip.c,
                    ip.d,
                    (port / 256) as u8,
                    (port % 256) as u8,
                ] + b,
            ),
            SocketAddr::V6 { .. } => agent_udp_outcome(cache, server, src, b, now) is Ignore,
        },
{
    match src {
        SocketAddr::V4 { ip, port } => {
            udp::law_frame_on_the_wire(ip, port, b);
        },
        SocketAddr::V6 { .. } => {},
    }
}

/// What the server relays without a whole header of an IPv4 address or a host name is ignored.
pub proof fn law_strange_relays_are_ignored(
    cache: Map<Seq<char>, (SocketAddr, u64)>,
    server: SocketAddr,
    b: Seq<u8>,
    now: u64,
)
    requires
        b.len() < 4 || (b[3] != 1 && b[3] != 3) || (b[3] == 1 && b.len() < 10) || (b[3] == 3
            && b.len() < 7 + if b.len() < 5 {
            0int
        } else {
            b[4] as int
        }),
    ensures
        agent_udp_outcome(cache, server, server, b, now) is Ignore,
{
}

/// A name that is asked for again is forgotten exactly if its address is five minutes old or
/// more; every other name stays remembered.
pub proof fn law_old_names_are_forgotten(
    cache: Map<Seq<char>, (SocketAddr, u64)>,
    asked: Seq<char>,
    other: Seq<char>,
    now: u64,
)
    ensures
        ({
            let after = forgotten(cache, Some(asked), now);
            &&& after.contains_key(asked) <==> cache.contains_key(asked) && now - cache[asked].1
                < 300_000_000_000
            &&& other != asked ==> (after.contains_key(other) <==> cache.contains_key(other))
            &&& after.contains_key(other) ==> after[other] == cache[other]
        }),
        forgotten(cache, None, now) == cache,
{
}

/// A name that is resolved goes to the first IPv4 address that it has, which is remembered for
/// five minutes; a name without one goes nowhere, and nothing is remembered of it.
pub proof fn law_names_are_resolved(
    cache: Map<Seq<char>, (SocketAddr, u64)>,
    name: Seq<char>,
    other: Seq<char>,
    before: Seq<SocketAddr>,
    ip: Ipv4Addr,
    port: u16,
    behind: Seq<SocketAddr>,
    now: u64,
    later: u64,
)
    requires
        forall|i: int| 0 <= i < before.len() ==> (#[trigger] before[i]) is V6,
        now <= later,
    ensures
        ({
            let found = SocketAddr::V4 { ip, port };
            let (after, to) = resolved_to(
                cache,
                name,
                Some(before + seq![found] + behind),
                now,
            );
            &&& to == Some(found)
            &&& later - now < 300_000_000_000 ==> remembered(after, name, later) == Some(found)
            &&& later - now >= 300_000_000_000 ==> remembered(after, name, later) is None
            &&& other != name ==> remembered(after, other, later) == remembered(
                cache,
                other,
                later,
            )
        }),
        resolved_to(cache, name, Some(before), now) == (cache, None::<SocketAddr>),
        resolved_to(cache, name, None, now) == (cache, None::<SocketAddr>),
{
    relay::law_told_address(before, ip, port, behind, net::IpAddr::V4(ip), port);
}

/// A session ends two minutes after the last datagram, and not before.
pub proof fn law_idle_sessions_end(last_activity: u64, now: u64)
    ensures
        session_over(last_activity, now) <==> now - last_activity >= 120_000_000_000,
{
}

/// The name that a relayed datagram asks for is the one in its header; every other datagram asks
/// for none.
pub proof fn law_asked_names(
    server: SocketAddr,
    src: SocketAddr,
    lead: Seq<u8>,
    host: Seq<u8>,
    hi: u8,
    lo: u8,
    payload: Seq<u8>,
    b: Seq<u8>,
)
    requires
        lead.len() == 3,
        host.len() <= 255,
    ensures
        asked_name(
            server,
            server,
            lead + seq![3u8, host.len() as u8] + host + seq![hi, lo] + payload,
        ) == Some(text::lossy_text(host) + seq![':'] + text::decimal((hi * 256 + lo) as nat)),
        src != server ==> asked_name(server, src, b) is None,
        b.len() >= 4 && b[3] != 3 ==> asked_name(server, src, b) is None,
        b.len() < 7 ==> asked_name(server, src, b) is None,
{
    let n = host.len() as int;
    let d = lead + seq![3u8, n as u8] + host + seq![hi, lo] + payload;
    assert(d[3] == 3 && d[4] == n);
    assert(d.subrange(5, 5 + n) =~= host);
    assert(d[5 + n] == hi && d[6 + n] == lo);
}

} // verus!
