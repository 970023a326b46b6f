//! Datagrams with SOCKS headers: reading and writing them, the relay for a client that the server
//! serves itself, and the frames of datagrams in a stream.
use vstd::prelude::*;
use vstd::slice::{slice_subrange, slice_to_vec};

use crate::address_text;
use crate::net::{self, Ipv4Addr, SocketAddr};
use crate::progress::{missing, Progress};
use crate::socks5::{self, ATYP_DOMAIN, ATYP_IPV4, ATYP_IPV6};
use crate::text;

verus! {

/// Why a datagram has no target.
#[derive(Clone, Copy, Debug, PartialEq, Eq, Structural)]
pub enum HeaderError {
    /// It ends before the header does.
    TooShort,
    /// IPv6 targets are not served.
    Ipv6,
    /// The address type is unknown.
    AddressType(u8),
}

/// Where a datagram goes to.
#[derive(Debug)]
pub enum UdpTarget {
    Addr(SocketAddr),
    /// A host name and a port, which are to be resolved.
    Name(String),
}

/// `UdpTarget`, with texts by their characters.
pub enum UdpTargetView {
    Addr(SocketAddr),
    Name(Seq<char>),
}

impl UdpTarget {
    /// The target by its contents.
    pub open spec fn view(&self) -> UdpTargetView {
        match self {
            UdpTarget::Addr(addr) => UdpTargetView::Addr(*addr),
            UdpTarget::Name(name) => UdpTargetView::Name(name@),
        }
    }
}

/// How long the header of a datagram is, from its address type on, and where the datagram goes
/// to.
pub open spec fn header_of(b: Seq<u8>) -> Result<(int, UdpTargetView), HeaderError> {
    if b[0] == ATYP_IPV4 {
        if b.len() < 7 {
            Err(HeaderError::TooShort)
        } else {
            let ip = Ipv4Addr { a: b[1], b: b[2], c: b[3], d: b[4] };
            Ok(
                (
                    7,
                    UdpTargetView::Addr(
                        SocketAddr::V4 { ip, port: net::from_be16(b[5], b[6]) },
                    ),
                ),
            )
        }
    } else if b[0] == ATYP_DOMAIN {
        let n = b[1] as int;
        if b.len() < 4 + n {
            Err(HeaderError::TooShort)
        } else {
            Ok(
                (
                    4 + n,
                    UdpTargetView::Name(
                        address_text::with_port(
                            text::lossy_text(b.subrange(2, 2 + n)),
                            net::from_be16(b[2 + n], b[3 + n]),
                        ),
                    ),
                ),
            )
        }
    } else if b[0] == ATYP_IPV6 {
        Err(HeaderError::Ipv6)
    } else {
        Err(HeaderError::AddressType(b[0]))
    }
}

/// The target of a datagram for a host: the host as text, with the port.
pub fn name_target(host: &str, port: u16) -> (res: String)
    ensures
        res@ == address_text::with_port(host@, port),
{
    address_text::host_with_port(host, port)
}

/// How long the header of a datagram is, from its address type on, and where the datagram goes
/// to. The type must be there, and for a host name its length.
pub fn parse_header(b: &[u8]) -> (res: Result<(usize, UdpTarget), HeaderError>)
    requires
        b@.len() >= 1,
        b@[0] == ATYP_DOMAIN ==> b@.len() >= 2,
    ensures
        match res {
            Ok((n, target)) => header_of(b@) == Ok::<(int, UdpTargetView), HeaderError>(
                (n as int, target@),
            ) && n <= b@.len(),
            Err(error) => header_of(b@) == Err::<(int, UdpTargetView), HeaderError>(error),
        },
{
    let len: usize = b.len();
    if b[0] == ATYP_IPV4 {
        if len < 7 {
            return Err(HeaderError::TooShort);
        }
        let ip = Ipv4Addr { a: b[1], b: b[2], c: b[3], d: b[4] };
        Ok((7, UdpTarget::Addr(SocketAddr::V4 { ip, port: net::join_be16(b[5], b[6]) })))
    } else if b[0] == ATYP_DOMAIN {
        let n: usize = b[1] as usize;
        if len < 4 + n {
            return Err(HeaderError::TooShort);
        }
        let host = text::string_from_utf8_lossy(slice_subrange(b, 2, 2 + n));
        let port: u16 = net::join_be16(b[2 + n], b[3 + n]);
        Ok((4 + n, UdpTarget::Name(name_target(host.as_str(), port))))
    } else if b[0] == ATYP_IPV6 {
        Err(HeaderError::Ipv6)
    } else {
        Err(HeaderError::AddressType(b[0]))
    }
}

/// A datagram from somewhere as a client gets it: behind a header with its origin.
pub open spec fn framed(src: SocketAddr, payload: Seq<u8>) -> Seq<u8> {
    seq![0u8, 0, 0] + socks5::address_bytes(src) + payload
}

/// A datagram from somewhere as a client gets it.
pub fn frame(src: SocketAddr, payload: &[u8]) -> (res: Vec<u8>)
    ensures
        res@ == framed(src, payload@),
{
    let mut res: Vec<u8> = Vec::new();
    res.push(0x00);
    res.push(0x00);
    res.push(0x00);
    socks5::push_address(&mut res, src);
    res.extend_from_slice(payload);
    assert(res@ =~= framed(src, payload@));
    res
}

/// The header of a datagram from an IPv4 address is read as that address, and what is behind it
/// is what was sent.
pub proof fn law_framed_datagram_is_read(ip: Ipv4Addr, port: u16, payload: Seq<u8>)
    ensures
        ({
            let b = framed(SocketAddr::V4 { ip, port }, payload);
            &&& header_of(b.skip(3)) == Ok::<(int, UdpTargetView), HeaderError>(
                (7, UdpTargetView::Addr(SocketAddr::V4 { ip, port })),
            )
            &&& b.skip(10) == payload
        }),
{
    let b = framed(SocketAddr::V4 { ip, port }, payload);
    let h = b.skip(3);
    net::lemma_be16(port);
    assert(h[0] == ATYP_IPV4);
    assert(h[1] == ip.a && h[2] == ip.b && h[3] == ip.c && h[4] == ip.d);
    assert(h[5] == net::be16(port)[0] && h[6] == net::be16(port)[1]);
    assert(b.skip(10) =~= payload);
}

// ---------------------------------------------------------------------------------------------
// A client that the server serves itself
// ---------------------------------------------------------------------------------------------

/// What becomes of a datagram.
#[derive(Debug)]
pub enum UdpAction {
    /// Nothing.
    Ignore,
    /// What is behind this many bytes goes to an address.
    Send { to: SocketAddr, from: usize },
    /// What is behind this many bytes goes to the first address of a name.
    Resolve { name: String, from: usize },
    /// These bytes go to an address.
    Reply { to: SocketAddr, bytes: Vec<u8> },
}

/// `UdpAction`, with texts and bytes by their contents.
pub enum UdpActionView {
    Ignore,
    Send { to: SocketAddr, from: int },
    Resolve { name: Seq<char>, from: int },
    Reply { to: SocketAddr, bytes: Seq<u8> },
}

impl UdpAction {
    /// The action by its contents.
    pub open spec fn view(&self) -> UdpActionView {
        match self {
            UdpAction::Ignore => UdpActionView::Ignore,
            UdpAction::Send { to, from } => UdpActionView::Send { to: *to, from: *from as int },
            UdpAction::Resolve { name, from } => UdpActionView::Resolve {
                name: name@,
                from: *from as int,
            },
            UdpAction::Reply { to, bytes } => UdpActionView::Reply { to: *to, bytes: bytes@ },
        }
    }
}

/// What becomes of a client's datagram: it is passed on where it has a whole header and is no
/// fragment.
pub open spec fn outbound(b: Seq<u8>) -> UdpActionView {
    if b.len() < 10 || b[2] != 0 {
        UdpActionView::Ignore
    } else {
        match header_of(b.skip(3)) {
            Ok((n, UdpTargetView::Addr(to))) => UdpActionView::Send { to, from: 3 + n },
            Ok((n, UdpTargetView::Name(name))) => UdpActionView::Resolve { name, from: 3 + n },
            Err(_) => UdpActionView::Ignore,
        }
    }
}

/// What becomes of a datagram: whoever sends the first one is the client, whose datagrams go out;
/// all others go to the client.
pub open spec fn associated(client: Option<SocketAddr>, src: SocketAddr, b: Seq<u8>) -> (
    Option<SocketAddr>,
    UdpActionView,
) {
    let known = match client {
        Some(addr) => addr,
        None => src,
    };
    (
        Some(known),
        if src == known {
            outbound(b)
        } else {
            UdpActionView::Reply { to: known, bytes: framed(src, b) }
        },
    )
}

/// What becomes of a client's datagram.
fn send_out(b: &[u8]) -> (res: UdpAction)
    ensures
        res@ == outbound(b@),
        res matches UdpAction::Send { from, .. } ==> from <= b@.len(),
        res matches UdpAction::Resolve { from, .. } ==> from <= b@.len(),
{
    let len: usize = b.len();
    if len < 10 || b[2] != 0 {
        return UdpAction::Ignore;
    }
    let rest = slice_subrange(b, 3, len);
    assert(rest@ =~= b@.skip(3));
    match parse_header(rest) {
        Ok((n, UdpTarget::Addr(to))) => UdpAction::Send { to, from: 3 + n },
        Ok((n, UdpTarget::Name(name))) => UdpAction::Resolve { name, from: 3 + n },
        Err(_) => UdpAction::Ignore,
    }
}

/// Takes a datagram for a client that the server serves itself.
pub fn handle_udp_associate(
    client: &mut Option<SocketAddr>,
    src: SocketAddr,
    b: &[u8],
) -> (res: UdpAction)
    ensures
        (*final(client), res@) == associated(*old(client), src, b@),
        res matches UdpAction::Send { from, .. } ==> from <= b@.len(),
        res matches UdpAction::Resolve { from, .. } ==> from <= b@.len(),
{
    let known: SocketAddr = match client {
        Some(addr) => *addr,
        None => src,
    };
    *client = Some(known);
    if src == known {
        send_out(b)
    } else {
        UdpAction::Reply { to: known, bytes: frame(src, b) }
    }
}

/// Datagrams never change who the client is, and only the client's go out.
pub proof fn law_client_stays_the_client(client: SocketAddr, src: SocketAddr, b: Seq<u8>)
    ensures
        associated(Some(client), src, b).0 == Some(client),
        src != client ==> associated(Some(client), src, b).1 == (UdpActionView::Reply {
            to: client,
            bytes: framed(src, b),
        }),
{
}

// ---------------------------------------------------------------------------------------------
// Datagrams in a stream
// ---------------------------------------------------------------------------------------------

/// A datagram in a stream: behind its length, of which the low two bytes are sent.
pub open spec fn tunnel_frame(src: SocketAddr, payload: Seq<u8>) -> Seq<u8> {
    let packet = framed(src, payload);
    net::be16((packet.len() % 65536) as u16) + packet
}

/// A datagram in a stream.
pub fn write_tunnel_frame(src: SocketAddr, payload: &[u8]) -> (res: Vec<u8>)
    ensures
        res@ == tunnel_frame(src, payload@),
{
    let packet = frame(src, payload);
    let mut res: Vec<u8> = Vec::new();
    net::push_be16(&mut res, (packet.len() % 65536) as u16);
    res.extend_from_slice(packet.as_slice());
    assert(res@ =~= tunnel_frame(src, payload@));
    res
}

/// The datagram that bytes in a stream are.
pub open spec fn tunnel_packet_of(b: Seq<u8>) -> Progress<Seq<u8>, ()> {
    if b.len() < 2 {
        Progress::More(missing(b, 2))
    } else {
        let n = net::from_be16(b[0], b[1]) as int;
        if b.len() < 2 + n {
            Progress::More(missing(b, 2 + n))
        } else {
            Progress::Done { value: b.subrange(2, 2 + n), used: (2 + n) as usize }
        }
    }
}

/// The bytes inside a reading result.
pub open spec fn tunnel_packet_view(p: Progress<Vec<u8>, ()>) -> Progress<Seq<u8>, ()> {
    match p {
        Progress::More(n) => Progress::More(n),
        Progress::Done { value, used } => Progress::Done { value: value@, used },
        Progress::Failed(error) => Progress::Failed(error),
    }
}

/// The datagram that bytes in a stream are.
pub fn read_tunnel_packet(b: &[u8]) -> (res: Progress<Vec<u8>, ()>)
    ensures
        tunnel_packet_view(res) == tunnel_packet_of(b@),
{
    let len: usize = b.len();
    if len < 2 {
        return Progress::More(2 - len);
    }
    let n: usize = net::join_be16(b[0], b[1]) as usize;
    if len < 2 + n {
        return Progress::More(2 + n - len);
    }
    Progress::Done { value: slice_to_vec(slice_subrange(b, 2, 2 + n)), used: 2 + n }
}

/// What becomes of a datagram from a stream: it goes to the target in its header. One that is too
/// short for an address type is passed over.
pub open spec fn tunnelled(b: Seq<u8>) -> UdpActionView {
    if b.len() < 4 {
        UdpActionView::Ignore
    } else {
        match header_of(b.skip(3)) {
            Ok((n, UdpTargetView::Addr(to))) => UdpActionView::Send { to, from: 3 + n },
            Ok((n, UdpTargetView::Name(name))) => UdpActionView::Resolve { name, from: 3 + n },
            Err(_) => UdpActionView::Ignore,
        }
    }
}

/// What becomes of a datagram from a stream. A host name must have its length.
pub fn handle_tunneled_udp(b: &[u8]) -> (res: UdpAction)
    requires
        !(b@.len() == 4 && b@[3] == ATYP_DOMAIN),
    ensures
        res@ == tunnelled(b@),
        res matches UdpAction::Send { from, .. } ==> from <= b@.len(),
        res matches UdpAction::Resolve { from, .. } ==> from <= b@.len(),
{
    let len: usize = b.len();
    if len < 4 {
        return UdpAction::Ignore;
    }
    let rest = slice_subrange(b, 3, len);
    assert(rest@ =~= b@.skip(3));
    match parse_header(rest) {
        Ok((n, UdpTarget::Addr(to))) => UdpAction::Send { to, from: 3 + n },
        Ok((n, UdpTarget::Name(name))) => UdpAction::Resolve { name, from: 3 + n },
        Err(_) => UdpAction::Ignore,
    }
}

/// A datagram that a length of two bytes can tell comes out of a stream as it went in.
pub proof fn law_tunnel_frame_is_read(src: SocketAddr, payload: Seq<u8>, rest: Seq<u8>)
    requires
        framed(src, payload).len() <= 65535,
    ensures
        tunnel_packet_of(tunnel_frame(src, payload) + rest) == (Progress::<Seq<u8>, ()>::Done {
            value: framed(src, payload),
            used: tunnel_frame(src, payload).len() as usize,
        }),
{
    let packet = framed(src, payload);
    let b = tunnel_frame(src, payload) + rest;
    let n = packet.len() as u16;
    net::lemma_be16(n);
    assert(b[0] == net::be16(n)[0] && b[1] == net::be16(n)[1]);
    assert(b.subrange(2, 2 + n) =~= packet);
}

// ---------------------------------------------------------------------------------------------
// What is sent where
// ---------------------------------------------------------------------------------------------

/// A datagram with an IPv4 header goes to the address in its header, and what is sent there is
/// exactly what lies behind the header.
pub proof fn law_payload_goes_to_the_address(
    r0: u8,
    r1: u8,
    fragment: u8,
    ip: Ipv4Addr,
    hi: u8,
    lo: u8,
    payload: Seq<u8>,
)
    ensures
        ({
            let b = seq![r0, r1, fragment, 1u8, ip.a, ip.b, ip.c, ip.d, hi, lo] + payload;
            let to = SocketAddr::V4 { ip, port: (hi * 256 + lo) as u16 };
            &&& tunnelled(b) matches UdpActionView::Send { to: addr, from } && addr == to && b.skip(
                from,
            ) == payload
            &&& fragment == 0 ==> (outbound(b) matches UdpActionView::Send { to: addr, from }
                && addr == to && b.skip(from) == payload)
            &&& fragment != 0 ==> outbound(b) is Ignore
        }),
{
    let b = seq![r0, r1, fragment, 1u8, ip.a, ip.b, ip.c, ip.d, hi, lo] + payload;
    let h = b.skip(3);
    assert(b[2] == fragment);
    assert(h[0] == 1 && h[1] == ip.a && h[2] == ip.b && h[3] == ip.c && h[4] == ip.d && h[5] == hi
        && h[6] == lo);
    assert(b.skip(10) =~= payload);
}

/// A datagram with a host name in its header is resolved by that name and its port, and what is
/// to be sent is exactly what lies behind the header. A client's datagram of less than ten bytes
/// is ignored.
pub proof fn law_payload_goes_to_the_name(
    r0: u8,
    r1: u8,
    fragment: u8,
    host: Seq<u8>,
    hi: u8,
    lo: u8,
    payload: Seq<u8>,
)
    requires
        host.len() <= 255,
    ensures
        ({
            let b = seq![r0, r1, fragment, 3u8, host.len() as u8] + host + seq![hi, lo] + payload;
            let wanted = text::lossy_text(host) + seq![':'] + text::decimal((hi * 256 + lo) as nat);
            &&& tunnelled(b) matches UdpActionView::Resolve { name, from } && name == wanted
                && b.skip(from) == payload
            &&& fragment == 0 && b.len() >= 10 ==> (outbound(b) matches UdpActionView::Resolve {
                name,
                from,
            } && name == wanted && b.skip(from) == payload)
            &&& fragment != 0 || b.len() < 10 ==> outbound(b) is Ignore
        }),
{
    let n = host.len() as int;
    let b = seq![r0, r1, fragment, 3u8, n as u8] + host + seq![hi, lo] + payload;
    let h = b.skip(3);
    assert(b[2] == fragment);
    assert(h[0] == 3 && h[1] == n);
    assert(h.subrange(2, 2 + n) =~= host);
    assert(h[2 + n] == hi && h[3 + n] == lo);
    assert(b.skip(7 + n) =~= payload);
}

/// What names no IPv4 address and no host name in a whole header is sent nowhere.
pub proof fn law_strange_datagrams_are_ignored(b: Seq<u8>)
    ensures
        b.len() < 4 ==> outbound(b) is Ignore && tunnelled(b) is Ignore,
        b.len() < 10 ==> outbound(b) is Ignore,
        b.len() >= 4 && b[3] != 1 && b[3] != 3 ==> outbound(b) is Ignore && tunnelled(b) is Ignore,
        4 <= b.len() < 10 && b[3] == 1 ==> tunnelled(b) is Ignore,
        b.len() >= 5 && b[3] == 3 && b.len() < 7 + b[4] ==> outbound(b) is Ignore && tunnelled(b)
            is Ignore,
{
    if b.len() >= 4 {
        assert(b.skip(3)[0] == b[3]);
        if b.len() >= 5 {
            assert(b.skip(3)[1] == b[4]);
        }
    }
}

/// The first who sends becomes the client, and what the client sends goes out; what anybody else
/// sends goes to the client, behind three zeros, the sender's address and its port, byte for
/// byte.
pub proof fn law_client_and_others(
    client: SocketAddr,
    ip: Ipv4Addr,
    port: u16,
    b: Seq<u8>,
)
    ensures
        associated(None, client, b).0 == Some(client),
        associated(None, client, b).1 == outbound(b),
        associated(Some(client), client, b) == (Some(client), outbound(b)),
        client != (SocketAddr::V4 { ip, port }) ==> associated(
            Some(client),
            SocketAddr::V4 { ip, port },
            b,
        ) == (
            Some(client),
            UdpActionView::Reply {
                to: client,
                bytes: seq![
                    0u8,
                    0u8,
                    0u8,
                    1u8,
                    ip.a,
                    ip.b,
                    ip.c,
                    ip.d,
                    (port / 256) as u8,
                    (port % 256) as u8,
                ] + b,
            },
        ),
{
    law_frame_on_the_wire(ip, port, b);
}

/// A framed datagram is three zeros, the type 1, the sender's octets and port, and the payload.
pub proof fn law_frame_on_the_wire(ip: Ipv4Addr, port: u16, payload: Seq<u8>)
    ensures
        framed(SocketAddr::V4 { ip, port }, payload) == seq![
            0u8,
            0u8,
            0u8,
            1u8,
            ip.a,
            ip.b,
            ip.c,
            ip.d,
            (port / 256) as u8,
            (port % 256) as u8,
        ] + payload,
{
    assert(framed(SocketAddr::V4 { ip, port }, payload) =~= seq![
        0u8,
        0u8,
        0u8,
        1u8,
        ip.a,
        ip.b,
        ip.c,
        ip.d,
        (port / 256) as u8,
        (port % 256) as u8,
    ] + payload);
}

/// A datagram from an IPv6 address is framed with the type 4, sixteen octets and the port, and
/// the payload stands unchanged behind them.
pub proof fn law_ipv6_frame(
    ip: net::Ipv6Addr,
    port: u16,
    flowinfo: u32,
    scope_id: u32,
    payload: Seq<u8>,
)
    ensures
        ({
            let b = framed(SocketAddr::V6 { ip, port, flowinfo, scope_id }, payload);
            &&& b.len() == 22 + payload.len()
            &&& b.take(4) == seq![0u8, 0u8, 0u8, 4u8]
            &&& net::Ipv6Addr::of_octets(b.subrange(4, 20)) == ip
            &&& b[20] * 256 + b[21] == port
            &&& b.skip(22) == payload
        }),
{
    let b = framed(SocketAddr::V6 { ip, port, flowinfo, scope_id }, payload);
    ip.lemma_octets();
    assert(b.subrange(4, 20) =~= ip.octets());
    assert(b.take(4) =~= seq![0u8, 0u8, 0u8, 4u8]);
    assert(b[20] == net::be16(port)[0] && b[21] == net::be16(port)[1]);
    assert(b.skip(22) =~= payload);
}

/// In a stream each packet stands behind its length in two bytes, high byte first: it is read
/// back whole, whatever follows, and of a part of it no more is asked for than the rest.
pub proof fn law_stream_packet_is_read(packet: Seq<u8>, rest: Seq<u8>, k: int)
    requires
        packet.len() <= 65535,
        0 <= k < 2 + packet.len(),
    ensures
        ({
            let b = seq![(packet.len() / 256) as u8, (packet.len() % 256) as u8] + packet;
            &&& tunnel_packet_of(b + rest) == (Progress::<Seq<u8>, ()>::Done {
                value: packet,
                used: (2 + packet.len()) as usize,
            })
            &&& tunnel_packet_of(b.take(k)) matches Progress::More(n) && 1 <= n && k + n <= b.len()
        }),
{
    let n = packet.len() as int;
    let b = seq![(n / 256) as u8, (n % 256) as u8] + packet;
    let c = b + rest;
    assert(c[0] == n / 256 && c[1] == n % 256);
    assert(c.subrange(2, 2 + n) =~= packet);
    let d = b.take(k);
    if k >= 2 {
        assert(d[0] == n / 256 && d[1] == n % 256);
    }
}

/// What an agent writes on a stream for a datagram begins with the length of what follows, and
/// the payload is its end.
pub proof fn law_stream_frame_has_its_length(src: SocketAddr, payload: Seq<u8>)
    requires
        framed(src, payload).len() <= 65535,
    ensures
        ({
            let b = tunnel_frame(src, payload);
            &&& b[0] * 256 + b[1] == b.len() - 2
            &&& b.skip(2) == framed(src, payload)
            &&& b.skip(b.len() - payload.len()) == payload
        }),
{
    let packet = framed(src, payload);
    let b = tunnel_frame(src, payload);
    assert(b.skip(2) =~= packet);
    assert(b.skip(b.len() - payload.len()) =~= payload);
}

} // verus!
