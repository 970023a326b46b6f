//! The SOCKS5 side of the tunnel: addresses and packets on the wire, the greeting with its
//! password check, and what is done with a client's request.
pub mod client;
pub mod open;
pub mod relay;

use vstd::prelude::*;
use vstd::slice::{slice_subrange, slice_to_vec};
use vstd::utf8::{decode_utf8, encode_utf8, valid_utf8};

use crate::address_text;
use crate::net::{self, IpAddr, Ipv4Addr, Ipv6Addr, SocketAddr};
use crate::progress::{missing, Progress};
use crate::text;

verus! {

pub const SOCKS_VERSION: u8 = 0x05;

pub const CMD_CONNECT: u8 = 0x01;

pub const CMD_UDP_ASSOCIATE: u8 = 0x03;

pub const ATYP_IPV4: u8 = 0x01;

pub const ATYP_DOMAIN: u8 = 0x03;

pub const ATYP_IPV6: u8 = 0x04;

// ---------------------------------------------------------------------------------------------
// Target addresses on the wire
// ---------------------------------------------------------------------------------------------

/// Why a target address cannot be encoded.
#[derive(Clone, Copy, Debug, PartialEq, Eq, Structural)]
pub enum TargetError {
    /// There is no colon before a port.
    NoPort,
    /// The host is empty, longer than 255 bytes, or holds a colon or white space.
    BadDomain,
    /// The port is not a number up to 65535.
    BadPort,
}

/// Whether a text holds white space.
pub open spec fn has_white(s: Seq<char>) -> bool {
    exists|i: int| 0 <= i < s.len() && text::is_white(#[trigger] s[i])
}

/// Whether a host name can be put on the wire.
pub open spec fn usable_domain(domain: Seq<char>) -> bool {
    &&& domain.len() > 0
    &&& encode_utf8(domain).len() <= 255
    &&& !domain.contains(':')
    &&& !has_white(domain)
}

/// The wire form of a host name and a port.
pub open spec fn domain_bytes(domain: Seq<char>, port: u16) -> Seq<u8> {
    seq![ATYP_DOMAIN, encode_utf8(domain).len() as u8] + encode_utf8(domain) + net::be16(port)
}

/// The wire form of an address and a port.
pub open spec fn address_bytes(addr: SocketAddr) -> Seq<u8> {
    match addr {
        SocketAddr::V4 { ip, port } => seq![ATYP_IPV4] + ip.octets() + net::be16(port),
        SocketAddr::V6 { ip, port, flowinfo, scope_id } => seq![ATYP_IPV6] + ip.octets()
            + net::be16(port),
    }
}

/// The wire form of a target: of an address where the text is one, of a host name elsewhere.
pub open spec fn target_bytes(s: Seq<char>) -> Result<Seq<u8>, TargetError> {
    match address_text::socket_of(s) {
        Some(addr) => Ok(address_bytes(addr)),
        None => {
            let colon = text::last_position(s, ':');
            let domain = s.take(colon);
            let port = s.skip(colon + 1);
            if colon < 0 {
                Err(TargetError::NoPort)
            } else if !usable_domain(domain) {
                Err(TargetError::BadDomain)
            } else {
                match text::number_up_to(port, 65535) {
                    Some(port) => Ok(domain_bytes(domain, port as u16)),
                    None => Err(TargetError::BadPort),
                }
            }
        },
    }
}

/// Whether a text holds white space.
fn contains_white(s: &[char]) -> (res: bool)
    ensures
        res == has_white(s@),
{
    let n: usize = s.len();
    let mut i: usize = 0;
    while i < n
        invariant
            i <= n,
            n == s@.len(),
            forall|j: int| 0 <= j < i ==> !text::is_white(#[trigger] s@[j]),
        decreases n - i,
    {
        if text::is_whitespace(s[i]) {
            assert(text::is_white(s@[i as int]));
            return true;
        }
        i += 1;
    }
    false
}

/// Appends the wire form of an address and a port.
pub fn push_address(out: &mut Vec<u8>, addr: SocketAddr)
    ensures
        final(out)@ == old(out)@ + address_bytes(addr),
{
    match addr {
        SocketAddr::V4 { ip, port } => {
            out.push(ATYP_IPV4);
            ip.push_octets(out);
            net::push_be16(out, port);
        },
        SocketAddr::V6 { ip, port, flowinfo: _, scope_id: _ } => {
            out.push(ATYP_IPV6);
            ip.push_octets(out);
            net::push_be16(out, port);
        },
    }
    assert(out@ =~= old(out)@ + address_bytes(addr));
}

/// The wire form of a target.
pub fn encode_target_address(addr_str: &str) -> (res: Result<Vec<u8>, TargetError>)
    ensures
        match res {
            Ok(bytes) => target_bytes(addr_str@) == Ok::<Seq<u8>, TargetError>(bytes@),
            Err(error) => target_bytes(addr_str@) == Err::<Seq<u8>, TargetError>(error),
        },
{
    let chars = text::to_chars(addr_str);
    let s = chars.as_slice();
    let mut buf: Vec<u8> = Vec::new();
    match address_text::parse_socket(s) {
        Some(addr) => {
            push_address(&mut buf, addr);
            assert(buf@ =~= address_bytes(addr));
            Ok(buf)
        },
        None => match text::rfind(s, ':') {
            Some(colon) => {
                let n: usize = s.len();
                let domain = slice_subrange(s, 0, colon);
                let port = slice_subrange(s, colon + 1, n);
                proof {
                    assert(domain@ =~= s@.take(colon as int));
                    assert(port@ =~= s@.skip(colon + 1));
                }
                let bytes = text::to_bytes(text::from_chars(domain).as_str());
                if domain.len() == 0 || bytes.len() > 255 || text::has_char(domain, ':')
                    || contains_white(domain) {
                    return Err(TargetError::BadDomain);
                }
                match text::parse_number(port, 65535) {
                    Some(port) => {
                        buf.push(ATYP_DOMAIN);
                        buf.push(bytes.len() as u8);
                        buf.extend_from_slice(bytes.as_slice());
                        net::push_be16(&mut buf, port as u16);
                        assert(buf@ =~= domain_bytes(domain@, port as u16));
                        Ok(buf)
                    },
                    None => Err(TargetError::BadPort),
                }
            },
            None => Err(TargetError::NoPort),
        },
    }
}

/// Whether a target can be put on the wire.
pub fn validate_target(addr_str: &str) -> (res: Result<(), TargetError>)
    ensures
        match res {
            Ok(_) => target_bytes(addr_str@) is Ok,
            Err(error) => target_bytes(addr_str@) == Err::<Seq<u8>, TargetError>(error),
        },
{
    match encode_target_address(addr_str) {
        Ok(_) => Ok(()),
        Err(error) => Err(error),
    }
}

/// The request that asks for a connection to a target.
pub open spec fn connect_packet(s: Seq<char>) -> Result<Seq<u8>, TargetError> {
    match target_bytes(s) {
        Ok(bytes) => Ok(seq![SOCKS_VERSION, CMD_CONNECT, 0u8] + bytes),
        Err(error) => Err(error),
    }
}

/// The request that asks for a connection to a target.
pub fn build_connect_packet(addr_str: &str) -> (res: Result<Vec<u8>, TargetError>)
    ensures
        match res {
            Ok(bytes) => connect_packet(addr_str@) == Ok::<Seq<u8>, TargetError>(bytes@),
            Err(error) => connect_packet(addr_str@) == Err::<Seq<u8>, TargetError>(error),
        },
{
    match encode_target_address(addr_str) {
        Ok(target) => {
            let mut buf: Vec<u8> = Vec::new();
            buf.push(SOCKS_VERSION);
            buf.push(CMD_CONNECT);
            buf.push(0x00);
            buf.extend_from_slice(target.as_slice());
            assert(buf@ =~= seq![SOCKS_VERSION, CMD_CONNECT, 0u8] + target@);
            Ok(buf)
        },
        Err(error) => Err(error),
    }
}

/// The reply that tells a client how its request went. The address of an IPv6 socket is given
/// as `0.0.0.0`.
pub open spec fn reply_bytes(rep: u8, addr: SocketAddr) -> Seq<u8> {
    let octets = match addr {
        SocketAddr::V4 { ip, port } => ip.octets(),
        SocketAddr::V6 { .. } => seq![0u8, 0, 0, 0],
    };
    seq![SOCKS_VERSION, rep, 0u8, ATYP_IPV4] + octets + net::be16(addr.port_spec())
}

/// The reply that tells a client how its request went.
pub fn write_reply(rep: u8, addr: SocketAddr) -> (res: Vec<u8>)
    ensures
        res@ == reply_bytes(rep, addr),
{
    let mut buf: Vec<u8> = Vec::new();
    buf.push(SOCKS_VERSION);
    buf.push(rep);
    buf.push(0x00);
    buf.push(ATYP_IPV4);
    match addr {
        SocketAddr::V4 { ip, port: _ } => ip.push_octets(&mut buf),
        SocketAddr::V6 { ip: _, port: _, flowinfo: _, scope_id: _ } => {
            Ipv4Addr::unspecified().push_octets(&mut buf)
        },
    }
    net::push_be16(&mut buf, addr.port());
    assert(buf@ =~= reply_bytes(rep, addr));
    buf
}

// ---------------------------------------------------------------------------------------------
// Reading targets and packets
// ---------------------------------------------------------------------------------------------

/// Why received bytes are no packet.
#[derive(Clone, Copy, Debug, PartialEq, Eq, Structural)]
pub enum PacketError {
    /// The first byte is not the SOCKS version.
    Version,
    /// The address type is none of the three known ones.
    AddressType(u8),
    /// The host name is not UTF-8.
    HostEncoding,
    /// The host name is empty where there must be one.
    EmptyHost,
}

/// The target that bytes on the wire are, as text: type, address, port. A host name may be empty
/// where `empty_host` says so.
pub open spec fn target_of(b: Seq<u8>, empty_host: bool) -> Progress<Seq<char>, PacketError> {
    if b.len() < 1 {
        Progress::More(missing(b, 1))
    } else if b[0] == ATYP_IPV4 {
        if b.len() < 5 {
            Progress::More(missing(b, 5))
        } else if b.len() < 7 {
            Progress::More(missing(b, 7))
        } else {
            let ip = Ipv4Addr { a: b[1], b: b[2], c: b[3], d: b[4] };
            Progress::Done {
                value: address_text::with_port(
                    address_text::ipv4_text(ip),
                    net::from_be16(b[5], b[6]),
                ),
                used: 7,
            }
        }
    } else if b[0] == ATYP_DOMAIN {
        if b.len() < 2 {
            Progress::More(missing(b, 2))
        } else {
            let n = b[1] as int;
            let host = b.subrange(2, 2 + n);
            if b.len() < 2 + n {
                Progress::More(missing(b, 2 + n))
            } else if !valid_utf8(host) {
                Progress::Failed(PacketError::HostEncoding)
            } else if n == 0 && !empty_host {
                Progress::Failed(PacketError::EmptyHost)
            } else if b.len() < 4 + n {
                Progress::More(missing(b, 4 + n))
            } else {
                Progress::Done {
                    value: address_text::with_port(
                        decode_utf8(host),
                        net::from_be16(b[2 + n], b[3 + n]),
                    ),
                    used: (4 + n) as usize,
                }
            }
        }
    } else if b[0] == ATYP_IPV6 {
        if b.len() < 17 {
            Progress::More(missing(b, 17))
        } else if b.len() < 19 {
            Progress::More(missing(b, 19))
        } else {
            let ip = Ipv6Addr::of_octets(b.subrange(1, 17));
            Progress::Done {
                value: address_text::with_port(
                    seq!['['] + address_text::ipv6_text(ip) + seq![']'],
                    net::from_be16(b[17], b[18]),
                ),
                used: 19,
            }
        }
    } else {
        Progress::Failed(PacketError::AddressType(b[0]))
    }
}

/// The text inside a reading result.
pub open spec fn target_view(p: Progress<String, PacketError>) -> Progress<
    Seq<char>,
    PacketError,
> {
    match p {
        Progress::More(n) => Progress::More(n),
        Progress::Done { value, used } => Progress::Done { value: value@, used },
        Progress::Failed(error) => Progress::Failed(error),
    }
}

/// The target that bytes on the wire are, as text.
pub fn read_target(b: &[u8], empty_host: bool) -> (res: Progress<String, PacketError>)
    ensures
        target_view(res) == target_of(b@, empty_host),
{
    let len: usize = b.len();
    if len < 1 {
        return Progress::More(1);
    }
    if b[0] == ATYP_IPV4 {
        if len < 5 {
            Progress::More(5 - len)
        } else if len < 7 {
            Progress::More(7 - len)
        } else {
            let host = IpAddr::V4(Ipv4Addr { a: b[1], b: b[2], c: b[3], d: b[4] }).to_text();
            let port: u16 = net::join_be16(b[5], b[6]);
            Progress::Done {
                value: address_text::host_with_port(host.as_str(), port),
                used: 7,
            }
        }
    } else if b[0] == ATYP_DOMAIN {
        if len < 2 {
            return Progress::More(2 - len);
        }
        let n: usize = b[1] as usize;
        if len < 2 + n {
            return Progress::More(2 + n - len);
        }
        match text::string_from_utf8(slice_to_vec(slice_subrange(b, 2, 2 + n))) {
            Ok(host) => {
                if n == 0 && !empty_host {
                    Progress::Failed(PacketError::EmptyHost)
                } else if len < 4 + n {
                    Progress::More(4 + n - len)
                } else {
                    let port: u16 = net::join_be16(b[2 + n], b[3 + n]);
                    Progress::Done {
                        value: address_text::host_with_port(host.as_str(), port),
                        used: 4 + n,
                    }
                }
            },
            Err(_) => Progress::Failed(PacketError::HostEncoding),
        }
    } else if b[0] == ATYP_IPV6 {
        if len < 17 {
            Progress::More(17 - len)
        } else if len < 19 {
            Progress::More(19 - len)
        } else {
            let host = IpAddr::V6(Ipv6Addr::from_octets(slice_subrange(b, 1, 17))).to_text();
            let port: u16 = net::join_be16(b[17], b[18]);
            Progress::Done {
                value: address_text::bracketed_with_port(host.as_str(), port),
                used: 19,
            }
        }
    } else {
        Progress::Failed(PacketError::AddressType(b[0]))
    }
}

/// A request or a reply: its command or its outcome, and its address as text.
pub open spec fn packet_of(b: Seq<u8>) -> Progress<(u8, Seq<char>), PacketError> {
    if b.len() < 4 {
        Progress::More(missing(b, 4))
    } else if b[0] != SOCKS_VERSION {
        Progress::Failed(PacketError::Version)
    } else {
        match target_of(b.skip(3), true) {
            Progress::More(n) => Progress::More(n),
            Progress::Done { value, used } => Progress::Done {
                value: (b[1], value),
                used: (3 + used) as usize,
            },
            Progress::Failed(error) => Progress::Failed(error),
        }
    }
}

/// The text inside a reading result.
pub open spec fn packet_view(p: Progress<(u8, String), PacketError>) -> Progress<
    (u8, Seq<char>),
    PacketError,
> {
    match p {
        Progress::More(n) => Progress::More(n),
        Progress::Done { value: (code, target), used } => Progress::Done {
            value: (code, target@),
            used,
        },
        Progress::Failed(error) => Progress::Failed(error),
    }
}

/// A request or a reply: its command or its outcome, and its address as text.
pub fn read_packet(b: &[u8]) -> (res: Progress<(u8, String), PacketError>)
    ensures
        packet_view(res) == packet_of(b@),
{
    let len: usize = b.len();
    if len < 4 {
        return Progress::More(4 - len);
    }
    if b[0] != SOCKS_VERSION {
        return Progress::Failed(PacketError::Version);
    }
    let rest = slice_subrange(b, 3, len);
    assert(rest@ =~= b@.skip(3));
    match read_target(rest, true) {
        Progress::More(n) => Progress::More(n),
        Progress::Done { value, used } => Progress::Done { value: (b[1], value), used: 3 + used },
        Progress::Failed(error) => Progress::Failed(error),
    }
}

/// The text by which the far side knows a target: the address in its own form, or the host name
/// with the port.
#[verifier::opaque]
pub open spec fn reached_target(s: Seq<char>) -> Seq<char> {
    match address_text::socket_of(s) {
        Some(addr) => address_text::socket_text(SocketAddr::of(addr.ip_spec(), addr.port_spec())),
        None => {
            let colon = text::last_position(s, ':');
            let port = text::number_up_to(s.skip(colon + 1), 65535)->0;
            address_text::with_port(s.take(colon), port as u16)
        },
    }
}

/// What settles the reading of a target is not changed by the bytes behind it.
pub proof fn law_target_reading_is_stable(b: Seq<u8>, more: Seq<u8>, empty_host: bool)
    requires
        target_of(b, empty_host).settled(),
    ensures
        target_of(b + more, empty_host) == target_of(b, empty_host),
{
    let c = b + more;
    assert(c[0] == b[0]);
    if b[0] == ATYP_DOMAIN {
        let n = b[1] as int;
        assert(c.subrange(2, 2 + n) =~= b.subrange(2, 2 + n));
    } else if b[0] == ATYP_IPV6 {
        assert(c.subrange(1, 17) =~= b.subrange(1, 17));
    }
}

/// What settles the reading of a packet is not changed by the bytes behind it.
pub proof fn law_packet_reading_is_stable(b: Seq<u8>, more: Seq<u8>)
    requires
        packet_of(b).settled(),
    ensures
        packet_of(b + more) == packet_of(b),
{
    let c = b + more;
    assert(c[0] == b[0] && c[1] == b[1]);
    if b[0] == SOCKS_VERSION {
        assert(c.skip(3) =~= b.skip(3) + more);
        law_target_reading_is_stable(b.skip(3), more, true);
    }
}

proof fn lemma_address_is_read(addr: SocketAddr, empty_host: bool)
    ensures
        target_of(address_bytes(addr), empty_host) == (Progress::<Seq<char>, PacketError>::Done {
            value: address_text::socket_text(SocketAddr::of(addr.ip_spec(), addr.port_spec())),
            used: address_bytes(addr).len() as usize,
        }),
        address_bytes(addr).len() <= 19,
{
    let b = address_bytes(addr);
    net::lemma_be16(addr.port_spec());
    match addr {
        SocketAddr::V4 { ip, port } => {
            assert(b[1] == ip.a && b[2] == ip.b && b[3] == ip.c && b[4] == ip.d);
            assert(b[5] == net::be16(port)[0] && b[6] == net::be16(port)[1]);
        },
        SocketAddr::V6 { ip, port, flowinfo, scope_id } => {
            ip.lemma_octets();
            assert(b.subrange(1, 17) =~= ip.octets());
            assert(b[17] == net::be16(port)[0] && b[18] == net::be16(port)[1]);
            assert(seq!['['] + address_text::ipv6_text(ip) + Seq::<char>::empty() + seq![']']
                =~= seq!['['] + address_text::ipv6_text(ip) + seq![']']);
        },
    }
}

proof fn lemma_domain_is_read(domain: Seq<char>, port: u16, empty_host: bool)
    requires
        usable_domain(domain),
    ensures
        target_of(domain_bytes(domain, port), empty_host) == (Progress::<
            Seq<char>,
            PacketError,
        >::Done {
            value: address_text::with_port(domain, port),
            used: domain_bytes(domain, port).len() as usize,
        }),
        domain_bytes(domain, port).len() <= 259,
{
    let b = domain_bytes(domain, port);
    let host = encode_utf8(domain);
    let n = host.len() as int;
    net::lemma_be16(port);
    vstd::utf8::encode_utf8_valid_utf8(domain);
    vstd::utf8::encode_utf8_decode_utf8(domain);
    assert(n > 0) by {
        if n == 0 {
            assert(host =~= encode_utf8(Seq::<char>::empty()));
            vstd::utf8::encode_utf8_decode_utf8(Seq::<char>::empty());
        }
    }
    assert(b[1] == n);
    assert(b.subrange(2, 2 + n) =~= host);
    assert(b[2 + n] == net::be16(port)[0] && b[3 + n] == net::be16(port)[1]);
}

/// Whether the port of a target is written in base ten, without a sign and without zeros before.
pub open spec fn has_plain_port(s: Seq<char>) -> bool {
    let colon = text::last_position(s, ':');
    let port = s.skip(colon + 1);
    &&& colon >= 0
    &&& text::number_up_to(port, 65535) matches Some(n) && port == text::decimal(n)
}

/// Whether a target is an IPv6 address with a port.
pub open spec fn is_ipv6_target(s: Seq<char>) -> bool {
    address_text::socket_of(s) matches Some(addr) && addr is V6
}

proof fn lemma_plain_target_is_itself(s: Seq<char>)
    requires
        target_bytes(s) is Ok,
        has_plain_port(s),
        !is_ipv6_target(s),
    ensures
        reached_target(s) == s,
{
    reveal(reached_target);
    let colon = text::last_position(s, ':');
    let port = s.skip(colon + 1);
    text::lemma_last_position_bounds(s, ':');
    match address_text::socket_of(s) {
        Some(addr) => {
            let first = text::position(s, ':');
            text::lemma_position_bounds(s, ':');
            assert(address_text::socket_v4_of(s) == Some(addr));
            let digits = s.skip(first + 1);
            assert(text::all_digits(digits));
            assert(first == colon) by {
                if first < colon {
                    assert(digits[colon - first - 1] == ':');
                    assert(!text::is_digit(':'));
                }
            }
            assert(!(digits.len() > 0 && digits[0] == '+')) by {
                assert(digits.len() > 0 ==> text::is_digit(digits[0]));
            }
            address_text::law_ipv4_has_one_text(s.take(first));
            assert(s =~= s.take(first) + seq![':'] + port);
        },
        None => {
            assert(s =~= s.take(colon) + seq![':'] + port);
        },
    }
}

/// A target that can be encoded is read back from its wire form, whatever follows: an address as
/// the same address, a host name as the same host name, with the same port. An IPv4 address or a
/// host name with a plain port comes back as the very same text.
pub proof fn law_encoded_target_is_read(s: Seq<char>, rest: Seq<u8>, empty_host: bool)
    requires
        target_bytes(s) is Ok,
    ensures
        target_of(target_bytes(s)->Ok_0 + rest, empty_host) == (Progress::<
            Seq<char>,
            PacketError,
        >::Done { value: reached_target(s), used: target_bytes(s)->Ok_0.len() as usize }),
        1 <= target_bytes(s)->Ok_0.len() <= 259,
        match address_text::socket_of(s) {
            Some(addr) => address_text::socket_of(reached_target(s)) == Some(
                SocketAddr::of(addr.ip_spec(), addr.port_spec()),
            ),
            None => true,
        },
        has_plain_port(s) && !is_ipv6_target(s) ==> reached_target(s) == s,
{
    reveal(reached_target);
    if has_plain_port(s) && !is_ipv6_target(s) {
        lemma_plain_target_is_itself(s);
    }
    let b = target_bytes(s)->Ok_0;
    match address_text::socket_of(s) {
        Some(addr) => {
            lemma_address_is_read(addr, empty_host);
            address_text::law_socket_text_reads_back(
                SocketAddr::of(addr.ip_spec(), addr.port_spec()),
            );
        },
        None => {
            let colon = text::last_position(s, ':');
            let port = text::number_up_to(s.skip(colon + 1), 65535)->0;
            lemma_domain_is_read(s.take(colon), port as u16, empty_host);
        },
    }
    law_target_reading_is_stable(b, rest, empty_host);
}

proof fn lemma_connect_packet_is_read(target: Seq<u8>, rest: Seq<u8>, value: Seq<char>)
    requires
        target_of(target + rest, true) == (Progress::<Seq<char>, PacketError>::Done {
            value,
            used: target.len() as usize,
        }),
        1 <= target.len() <= 259,
    ensures
        packet_of(seq![SOCKS_VERSION, CMD_CONNECT, 0u8] + target + rest) == (Progress::<
            (u8, Seq<char>),
            PacketError,
        >::Done { value: (CMD_CONNECT, value), used: (3 + target.len()) as usize }),
{
    let b = seq![SOCKS_VERSION, CMD_CONNECT, 0u8] + target + rest;
    assert(b.skip(3) =~= target + rest);
}

/// The request that the server sends for a target is read by the agent as a request to connect
/// to that target.
pub proof fn law_connect_packet_is_read(s: Seq<char>, rest: Seq<u8>)
    requires
        connect_packet(s) is Ok,
    ensures
        packet_of(connect_packet(s)->Ok_0 + rest) == (Progress::<
            (u8, Seq<char>),
            PacketError,
        >::Done {
            value: (CMD_CONNECT, reached_target(s)),
            used: connect_packet(s)->Ok_0.len() as usize,
        }),
{
    law_encoded_target_is_read(s, rest, true);
    lemma_connect_packet_is_read(target_bytes(s)->Ok_0, rest, reached_target(s));
}

/// A reply is read as the outcome and the IPv4 address that it was made of.
pub proof fn law_reply_is_read(rep: u8, ip: Ipv4Addr, port: u16)
    ensures
        packet_of(reply_bytes(rep, SocketAddr::V4 { ip, port })) == (Progress::<
            (u8, Seq<char>),
            PacketError,
        >::Done {
            value: (rep, address_text::socket_text(SocketAddr::V4 { ip, port })),
            used: 10,
        }),
{
    let addr = SocketAddr::V4 { ip, port };
    let b = reply_bytes(rep, addr);
    lemma_address_is_read(addr, true);
    assert(b.skip(3) =~= address_bytes(addr));
}

// ---------------------------------------------------------------------------------------------
// The greeting
// ---------------------------------------------------------------------------------------------

/// Why a client is not let in.
#[derive(Clone, Copy, Debug, PartialEq, Eq, Structural)]
pub enum HandshakeError {
    /// The first byte is not the SOCKS version.
    Version(u8),
    /// The password message has an unknown version.
    AuthVersion,
    /// The user name or the password is wrong.
    Credentials,
    /// A password is asked for and the client does not offer one.
    PasswordNotOffered,
    /// No password is asked for and the client does not go without.
    PasswordRequired,
}

/// What the refusal of a client is called.
pub open spec fn refusal_words(error: HandshakeError) -> Seq<char> {
    match error {
        HandshakeError::Version(version) => "Unsupported SOCKS version: "@ + text::decimal(
            version as nat,
        ),
        HandshakeError::AuthVersion => "Invalid SOCKS Auth sub-negotiation version"@,
        HandshakeError::Credentials => "Invalid SOCKS credentials"@,
        HandshakeError::PasswordNotOffered => "Client does not support password auth"@,
        HandshakeError::PasswordRequired => "Client requires auth but server has none"@,
    }
}

impl HandshakeError {
    /// What the refusal is called.
    pub fn to_text(self) -> (res: String)
        ensures
            res@ == refusal_words(self),
    {
        match self {
            HandshakeError::Version(version) => {
                let mut res: String = text::copy_text("Unsupported SOCKS version: ");
                text::push_decimal(&mut res, version as u128);
                res
            },
            HandshakeError::AuthVersion => text::copy_text(
                "Invalid SOCKS Auth sub-negotiation version",
            ),
            HandshakeError::Credentials => text::copy_text("Invalid SOCKS credentials"),
            HandshakeError::PasswordNotOffered => text::copy_text(
                "Client does not support password auth",
            ),
            HandshakeError::PasswordRequired => text::copy_text(
                "Client requires auth but server has none",
            ),
        }
    }
}

/// How far a greeting has come: all that is answered so far, and the outcome.
#[derive(Debug)]
pub struct Greeting {
    pub reply: Vec<u8>,
    pub outcome: Progress<(), HandshakeError>,
}

/// The outcome of the password message `s` behind a greeting of `before` bytes.
pub open spec fn password_outcome(
    s: Seq<u8>,
    before: int,
    user: Seq<char>,
    password: Seq<char>,
) -> (Seq<u8>, Progress<(), HandshakeError>) {
    let offer = seq![SOCKS_VERSION, 0x02u8];
    if s.len() < 2 {
        (offer, Progress::More(missing(s, 2)))
    } else if s[0] != 0x01 {
        (offer, Progress::Failed(HandshakeError::AuthVersion))
    } else {
        let u = s[1] as int;
        if s.len() < 2 + u {
            (offer, Progress::More(missing(s, 2 + u)))
        } else if s.len() < 3 + u {
            (offer, Progress::More(missing(s, 3 + u)))
        } else {
            let p = s[2 + u] as int;
            if s.len() < 3 + u + p {
                (offer, Progress::More(missing(s, 3 + u + p)))
            } else if text::lossy_text(s.subrange(2, 2 + u)) == user && text::lossy_text(
                s.subrange(3 + u, 3 + u + p),
            ) == password {
                (
                    offer + seq![0x01u8, 0x00],
                    Progress::Done { value: (), used: (before + 3 + u + p) as usize },
                )
            } else {
                (offer + seq![0x01u8, 0x01], Progress::Failed(HandshakeError::Credentials))
            }
        }
    }
}

/// What a greeting amounts to. A password is asked for where there are a user name and a
/// password to compare with.
pub open spec fn greeting_outcome(
    b: Seq<u8>,
    user: Option<Seq<char>>,
    password: Option<Seq<char>>,
) -> (Seq<u8>, Progress<(), HandshakeError>) {
    if b.len() < 2 {
        (seq![], Progress::More(missing(b, 2)))
    } else if b[0] != SOCKS_VERSION {
        (seq![], Progress::Failed(HandshakeError::Version(b[0])))
    } else {
        let n = b[1] as int;
        let methods = b.subrange(2, 2 + n);
        if b.len() < 2 + n {
            (seq![], Progress::More(missing(b, 2 + n)))
        } else {
            match (user, password) {
                (Some(user), Some(password)) => if methods.contains(0x02) {
                    password_outcome(b.skip(2 + n), 2 + n, user, password)
                } else {
                    (
                        seq![SOCKS_VERSION, 0xffu8],
                        Progress::Failed(HandshakeError::PasswordNotOffered),
                    )
                },
                _ => if methods.contains(0x00) {
                    (
                        seq![SOCKS_VERSION, 0x00u8],
                        Progress::Done { value: (), used: (2 + n) as usize },
                    )
                } else {
                    (
                        seq![SOCKS_VERSION, 0xffu8],
                        Progress::Failed(HandshakeError::PasswordRequired),
                    )
                },
            }
        }
    }
}

/// Whether a byte is among others.
fn has_byte(b: &[u8], wanted: u8) -> (res: bool)
    ensures
        res == b@.contains(wanted),
{
    let n: usize = b.len();
    let mut i: usize = 0;
    while i < n
        invariant
            i <= n,
            n == b@.len(),
            forall|j: int| 0 <= j < i ==> b@[j] != wanted,
        decreases n - i,
    {
        if b[i] == wanted {
            return true;
        }
        i += 1;
    }
    false
}

/// Two bytes.
fn pair(first: u8, second: u8) -> (res: Vec<u8>)
    ensures
        res@ == seq![first, second],
{
    let mut res: Vec<u8> = Vec::new();
    res.push(first);
    res.push(second);
    assert(res@ =~= seq![first, second]);
    res
}

/// Whether what a client sent as its user name and password are the expected ones.
pub fn credentials_match(
    captured_user: &str,
    captured_password: &str,
    user: &str,
    password: &str,
) -> (res: bool)
    ensures
        res == (captured_user@ == user@ && captured_password@ == password@),
{
    text::same_text(captured_user, user) && text::same_text(captured_password, password)
}

/// The outcome of the password message.
fn check_password(s: &[u8], before: usize, user: &str, password: &str) -> (res: Greeting)
    requires
        before <= 257,
    ensures
        (res.reply@, res.outcome) == password_outcome(s@, before as int, user@, password@),
{
    let mut reply: Vec<u8> = pair(SOCKS_VERSION, 0x02);
    let len: usize = s.len();
    if len < 2 {
        return Greeting { reply, outcome: Progress::More(2 - len) };
    }
    if s[0] != 0x01 {
        return Greeting { reply, outcome: Progress::Failed(HandshakeError::AuthVersion) };
    }
    let u: usize = s[1] as usize;
    if len < 2 + u {
        return Greeting { reply, outcome: Progress::More(2 + u - len) };
    }
    if len < 3 + u {
        return Greeting { reply, outcome: Progress::More(3 + u - len) };
    }
    let p: usize = s[2 + u] as usize;
    if len < 3 + u + p {
        return Greeting { reply, outcome: Progress::More(3 + u + p - len) };
    }
    let captured_user = text::string_from_utf8_lossy(slice_subrange(s, 2, 2 + u));
    let captured_password = text::string_from_utf8_lossy(slice_subrange(s, 3 + u, 3 + u + p));
    reply.push(0x01);
    if credentials_match(captured_user.as_str(), captured_password.as_str(), user, password) {
        reply.push(0x00);
        assert(reply@ =~= seq![SOCKS_VERSION, 0x02u8] + seq![0x01u8, 0x00]);
        Greeting { reply, outcome: Progress::Done { value: (), used: before + 3 + u + p } }
    } else {
        reply.push(0x01);
        assert(reply@ =~= seq![SOCKS_VERSION, 0x02u8] + seq![0x01u8, 0x01]);
        Greeting { reply, outcome: Progress::Failed(HandshakeError::Credentials) }
    }
}

/// The text of an optional string.
pub open spec fn text_option(value: Option<&str>) -> Option<Seq<char>> {
    match value {
        Some(text) => Some(text@),
        None => None,
    }
}

/// What the bytes of a greeting amount to, and what is answered.
pub fn handshake(
    b: &[u8],
    expected_user: Option<&str>,
    expected_password: Option<&str>,
) -> (res: Greeting)
    ensures
        (res.reply@, res.outcome) == greeting_outcome(
            b@,
            text_option(expected_user),
            text_option(expected_password),
        ),
{
    let len: usize = b.len();
    let none: Vec<u8> = Vec::new();
    assert(none@ =~= seq![]);
    if len < 2 {
        return Greeting { reply: none, outcome: Progress::More(2 - len) };
    }
    if b[0] != SOCKS_VERSION {
        return Greeting { reply: none, outcome: Progress::Failed(HandshakeError::Version(b[0])) };
    }
    let n: usize = b[1] as usize;
    if len < 2 + n {
        return Greeting { reply: none, outcome: Progress::More(2 + n - len) };
    }
    let methods = slice_subrange(b, 2, 2 + n);
    match (expected_user, expected_password) {
        (Some(user), Some(password)) => {
            if has_byte(methods, 0x02) {
                let rest = slice_subrange(b, 2 + n, len);
                assert(rest@ =~= b@.skip(2 + n));
                check_password(rest, 2 + n, user, password)
            } else {
                Greeting {
                    reply: pair(SOCKS_VERSION, 0xff),
                    outcome: Progress::Failed(HandshakeError::PasswordNotOffered),
                }
            }
        },
        _ => {
            if has_byte(methods, 0x00) {
                Greeting {
                    reply: pair(SOCKS_VERSION, 0x00),
                    outcome: Progress::Done { value: (), used: 2 + n },
                }
            } else {
                Greeting {
                    reply: pair(SOCKS_VERSION, 0xff),
                    outcome: Progress::Failed(HandshakeError::PasswordRequired),
                }
            }
        },
    }
}

proof fn lemma_password_outcome_extends(
    s: Seq<u8>,
    more: Seq<u8>,
    before: int,
    user: Seq<char>,
    password: Seq<char>,
)
    ensures
        password_outcome(s, before, user, password).0.is_prefix_of(
            password_outcome(s + more, before, user, password).0,
        ),
        password_outcome(s, before, user, password).1.settled() ==> password_outcome(
            s + more,
            before,
            user,
            password,
        ) == password_outcome(s, before, user, password),
{
    let t = s + more;
    if s.len() >= 2 && s[0] == 0x01 {
        assert(t[0] == s[0] && t[1] == s[1]);
        let u = s[1] as int;
        if s.len() >= 3 + u {
            assert(t[2 + u] == s[2 + u]);
            let p = s[2 + u] as int;
            if s.len() >= 3 + u + p {
                assert(t.subrange(2, 2 + u) =~= s.subrange(2, 2 + u));
                assert(t.subrange(3 + u, 3 + u + p) =~= s.subrange(3 + u, 3 + u + p));
            }
        }
    } else if s.len() >= 2 {
        assert(t[0] == s[0]);
    }
}

/// As the bytes of a greeting come in, what was answered stays answered, and an outcome once
/// reached does not change.
pub proof fn law_greeting_is_stable(
    b: Seq<u8>,
    more: Seq<u8>,
    user: Option<Seq<char>>,
    password: Option<Seq<char>>,
)
    ensures
        greeting_outcome(b, user, password).0.is_prefix_of(
            greeting_outcome(b + more, user, password).0,
        ),
        greeting_outcome(b, user, password).1.settled() ==> greeting_outcome(
            b + more,
            user,
            password,
        ) == greeting_outcome(b, user, password),
{
    let c = b + more;
    if b.len() >= 2 {
        assert(c[0] == b[0] && c[1] == b[1]);
        let n = b[1] as int;
        if b[0] == SOCKS_VERSION && b.len() >= 2 + n {
            assert(c.subrange(2, 2 + n) =~= b.subrange(2, 2 + n));
            assert(c.skip(2 + n) =~= b.skip(2 + n) + more);
            match (user, password) {
                (Some(user), Some(password)) => {
                    lemma_password_outcome_extends(b.skip(2 + n), more, 2 + n, user, password);
                },
                _ => {},
            }
        }
    }
}

/// The bytes with which a client greets, offering a password alone, and sends a user name and a
/// password.
pub open spec fn password_greeting(user: Seq<u8>, password: Seq<u8>) -> Seq<u8> {
    seq![SOCKS_VERSION, 0x01u8, 0x02u8] + seq![0x01u8, user.len() as u8] + user + seq![
        password.len() as u8,
    ] + password
}

/// A client that sends a user name and a password is let in where they are the expected ones,
/// and is told that they are wrong elsewhere.
pub proof fn law_password_decides(
    user: Seq<char>,
    password: Seq<char>,
    sent_user: Seq<char>,
    sent_password: Seq<char>,
)
    requires
        encode_utf8(sent_user).len() <= 255,
        encode_utf8(sent_password).len() <= 255,
    ensures
        ({
            let b = password_greeting(encode_utf8(sent_user), encode_utf8(sent_password));
            let outcome = greeting_outcome(b, Some(user), Some(password));
            if sent_user == user && sent_password == password {
                outcome == (
                    seq![SOCKS_VERSION, 0x02u8, 0x01, 0x00],
                    Progress::<(), HandshakeError>::Done { value: (), used: b.len() as usize },
                )
            } else {
                outcome == (
                    seq![SOCKS_VERSION, 0x02u8, 0x01, 0x01],
                    Progress::<(), HandshakeError>::Failed(HandshakeError::Credentials),
                )
            }
        }),
{
    let x = encode_utf8(sent_user);
    let y = encode_utf8(sent_password);
    vstd::utf8::encode_utf8_valid_utf8(sent_user);
    vstd::utf8::encode_utf8_decode_utf8(sent_user);
    vstd::utf8::encode_utf8_valid_utf8(sent_password);
    vstd::utf8::encode_utf8_decode_utf8(sent_password);
    let b = password_greeting(x, y);
    let u = x.len() as int;
    let p = y.len() as int;
    let methods = b.subrange(2, 3);
    assert(methods[0] == 0x02);
    assert(methods.contains(0x02));
    let s = b.skip(3);
    assert(s =~= seq![0x01u8, u as u8] + x + seq![p as u8] + y);
    assert(s[1] == u);
    assert(s[2 + u] == p);
    assert(s.subrange(2, 2 + u) =~= x);
    assert(s.subrange(3 + u, 3 + u + p) =~= y);
    assert(seq![SOCKS_VERSION, 0x02u8] + seq![0x01u8, 0x00] =~= seq![
        SOCKS_VERSION,
        0x02u8,
        0x01,
        0x00,
    ]);
    assert(seq![SOCKS_VERSION, 0x02u8] + seq![0x01u8, 0x01] =~= seq![
        SOCKS_VERSION,
        0x02u8,
        0x01,
        0x01,
    ]);
}

// ---------------------------------------------------------------------------------------------
// Datagrams and timing
// ---------------------------------------------------------------------------------------------

/// Whether a datagram is from the client whose TCP connection came from `client_ip`.
pub fn is_tunneled_udp_client(client_ip: IpAddr, source: SocketAddr) -> (res: bool)
    ensures
        res == (source.ip_spec() == client_ip),
{
    source.ip() == client_ip
}

/// A text without line breaks.
pub open spec fn on_one_line(s: Seq<char>) -> Seq<char>
    decreases s.len(),
{
    if s.len() == 0 {
        seq![]
    } else {
        let before = on_one_line(s.drop_last());
        if s.last() == '\r' || s.last() == '\n' {
            before
        } else {
            before.push(s.last())
        }
    }
}

/// There is no line break in a text without line breaks.
pub proof fn lemma_on_one_line(s: Seq<char>)
    ensures
        !on_one_line(s).contains('\r'),
        !on_one_line(s).contains('\n'),
    decreases s.len(),
{
    if s.len() > 0 {
        lemma_on_one_line(s.drop_last());
        let before = on_one_line(s.drop_last());
        assert forall|i: int| 0 <= i < on_one_line(s).len() implies on_one_line(s)[i] != '\r'
            && on_one_line(s)[i] != '\n' by {
            if i < before.len() {
                assert(before.contains(before[i]));
            }
        }
    }
}

/// A text without line breaks.
fn clean(value: &str) -> (res: String)
    ensures
        res@ == on_one_line(value@),
{
    let chars = text::to_chars(value);
    let mut res: String = String::new();
    let n: usize = chars.len();
    let mut i: usize = 0;
    assert(chars@.take(0) =~= seq![]);
    while i < n
        invariant
            i <= n,
            n == chars@.len(),
            res@ == on_one_line(chars@.take(i as int)),
        decreases n - i,
    {
        proof {
            assert(chars@.take(i + 1).drop_last() =~= chars@.take(i as int));
            assert(chars@.take(i + 1).last() == chars@[i as int]);
        }
        if chars[i] != '\r' && chars[i] != '\n' {
            res.push(chars[i]);
        }
        i += 1;
    }
    assert(chars@.take(n as int) =~= chars@);
    res
}

/// The line that tells how long a connection took to open.
pub open spec fn timing_text(
    agent: Seq<char>,
    port: u16,
    target: Seq<char>,
    data_conn_ms: u128,
    greeting_rtt_ms: u128,
    connect_reply_ms: u128,
    total_ms: u128,
    result: Seq<char>,
) -> Seq<char> {
    "timing agent="@ + on_one_line(agent) + " port="@ + text::decimal(port as nat) + " target="@
        + on_one_line(target) + " data_conn_ms="@ + text::decimal(data_conn_ms as nat)
        + " greeting_rtt_ms="@ + text::decimal(greeting_rtt_ms as nat) + " connect_reply_ms="@
        + text::decimal(connect_reply_ms as nat) + " total_ms="@ + text::decimal(total_ms as nat)
        + " result="@ + result
}

/// The line that tells how long a connection took to open.
pub fn timing_line(
    agent: &str,
    port: u16,
    target: &str,
    data_conn_ms: u128,
    greeting_rtt_ms: u128,
    connect_reply_ms: u128,
    total_ms: u128,
    result: &str,
) -> (res: String)
    ensures
        res@ == timing_text(
            agent@,
            port,
            target@,
            data_conn_ms,
            greeting_rtt_ms,
            connect_reply_ms,
            total_ms,
            result@,
        ),
{
    let mut res: String = text::join("timing agent=", clean(agent).as_str());
    res = text::join(res.as_str(), " port=");
    text::push_decimal(&mut res, port as u128);
    res = text::join(res.as_str(), " target=");
    res = text::join(res.as_str(), clean(target).as_str());
    res = text::join(res.as_str(), " data_conn_ms=");
    text::push_decimal(&mut res, data_conn_ms);
    res = text::join(res.as_str(), " greeting_rtt_ms=");
    text::push_decimal(&mut res, greeting_rtt_ms);
    res = text::join(res.as_str(), " connect_reply_ms=");
    text::push_decimal(&mut res, connect_reply_ms);
    res = text::join(res.as_str(), " total_ms=");
    text::push_decimal(&mut res, total_ms);
    res = text::join(res.as_str(), " result=");
    res = text::join(res.as_str(), result);
    res
}

/// Whether a text has no line break.
pub open spec fn is_one_line(s: Seq<char>) -> bool {
    forall|i: int| 0 <= i < s.len() ==> #[trigger] s[i] != '\r' && s[i] != '\n'
}

proof fn lemma_lines_join(a: Seq<char>, b: Seq<char>)
    requires
        is_one_line(a),
        is_one_line(b),
    ensures
        is_one_line(a + b),
{
}

proof fn lemma_decimal_is_one_line(n: nat)
    ensures
        is_one_line(text::decimal(n)),
{
    text::lemma_decimal(n);
    let s = text::decimal(n);
    assert forall|i: int| 0 <= i < s.len() implies #[trigger] s[i] != '\r' && s[i] != '\n' by {
        assert(text::is_digit(s[i]));
    }
}

proof fn lemma_clean_is_one_line(s: Seq<char>)
    ensures
        is_one_line(on_one_line(s)),
{
    lemma_on_one_line(s);
    let t = on_one_line(s);
    assert forall|i: int| 0 <= i < t.len() implies #[trigger] t[i] != '\r' && t[i] != '\n' by {
        assert(t.contains(t[i]));
    }
}

/// A timing line is one line, whatever the agent and the target are called.
pub proof fn law_timing_is_one_line(
    agent: Seq<char>,
    port: u16,
    target: Seq<char>,
    data_conn_ms: u128,
    greeting_rtt_ms: u128,
    connect_reply_ms: u128,
    total_ms: u128,
    result: Seq<char>,
)
    requires
        is_one_line(result),
    ensures
        is_one_line(
            timing_text(
                agent,
                port,
                target,
                data_conn_ms,
                greeting_rtt_ms,
                connect_reply_ms,
                total_ms,
                result,
            ),
        ),
{
    reveal_strlit("timing agent=");
    reveal_strlit(" port=");
    reveal_strlit(" target=");
    reveal_strlit(" data_conn_ms=");
    reveal_strlit(" greeting_rtt_ms=");
    reveal_strlit(" connect_reply_ms=");
    reveal_strlit(" total_ms=");
    reveal_strlit(" result=");
    lemma_clean_is_one_line(agent);
    lemma_clean_is_one_line(target);
    lemma_decimal_is_one_line(port as nat);
    lemma_decimal_is_one_line(data_conn_ms as nat);
    lemma_decimal_is_one_line(greeting_rtt_ms as nat);
    lemma_decimal_is_one_line(connect_reply_ms as nat);
    lemma_decimal_is_one_line(total_ms as nat);
    let t1 = "timing agent="@ + on_one_line(agent);
    lemma_lines_join("timing agent="@, on_one_line(agent));
    let t2 = t1 + " port="@;
    lemma_lines_join(t1, " port="@);
    let t3 = t2 + text::decimal(port as nat);
    lemma_lines_join(t2, text::decimal(port as nat));
    let t4 = t3 + " target="@;
    lemma_lines_join(t3, " target="@);
    let t5 = t4 + on_one_line(target);
    lemma_lines_join(t4, on_one_line(target));
    let t6 = t5 + " data_conn_ms="@;
    lemma_lines_join(t5, " data_conn_ms="@);
    let t7 = t6 + text::decimal(data_conn_ms as nat);
    lemma_lines_join(t6, text::decimal(data_conn_ms as nat));
    let t8 = t7 + " greeting_rtt_ms="@;
    lemma_lines_join(t7, " greeting_rtt_ms="@);
    let t9 = t8 + text::decimal(greeting_rtt_ms as nat);
    lemma_lines_join(t8, text::decimal(greeting_rtt_ms as nat));
    let t10 = t9 + " connect_reply_ms="@;
    lemma_lines_join(t9, " connect_reply_ms="@);
    let t11 = t10 + text::decimal(connect_reply_ms as nat);
    lemma_lines_join(t10, text::decimal(connect_reply_ms as nat));
    let t12 = t11 + " total_ms="@;
    lemma_lines_join(t11, " total_ms="@);
    let t13 = t12 + text::decimal(total_ms as nat);
    lemma_lines_join(t12, text::decimal(total_ms as nat));
    let t14 = t13 + " result="@;
    lemma_lines_join(t13, " result="@);
    lemma_lines_join(t14, result);
}

// ---------------------------------------------------------------------------------------------
// What the bytes on the wire are
// ---------------------------------------------------------------------------------------------

/// A client of a port with user name and password may offer its methods in any order and among
/// any others: where 0x02 is one of them it is answered `05 02`, and then let in exactly if the
/// user name and the password that it sends are the expected ones. Where 0x02 is not offered it
/// is answered `05 ff` and not let in, whatever it sends.
pub proof fn law_password_method_is_found_anywhere(
    methods: Seq<u8>,
    user: Seq<char>,
    password: Seq<char>,
    sent_user: Seq<u8>,
    sent_password: Seq<u8>,
    rest: Seq<u8>,
)
    requires
        methods.len() <= 255,
        sent_user.len() <= 255,
        sent_password.len() <= 255,
    ensures
        ({
            let greeting = seq![5u8, methods.len() as u8] + methods;
            let login = seq![1u8, sent_user.len() as u8] + sent_user + seq![
                sent_password.len() as u8,
            ] + sent_password;
            let first = greeting_outcome(greeting, Some(user), Some(password));
            let outcome = greeting_outcome(greeting + login + rest, Some(user), Some(password));
            if exists|i: int| 0 <= i < methods.len() && methods[i] == 2 {
                &&& first.0 == seq![5u8, 2u8]
                &&& first.1 is More
                &&& if text::lossy_text(sent_user) == user && text::lossy_text(sent_password)
                    == password {
                    outcome == (
                        seq![5u8, 2u8, 1u8, 0u8],
                        Progress::<(), HandshakeError>::Done {
                            value: (),
                            used: (greeting.len() + login.len()) as usize,
                        },
                    )
                } else {
                    outcome == (
                        seq![5u8, 2u8, 1u8, 1u8],
                        Progress::<(), HandshakeError>::Failed(HandshakeError::Credentials),
                    )
                }
            } else {
                &&& first == (
                    seq![5u8, 0xffu8],
                    Progress::<(), HandshakeError>::Failed(HandshakeError::PasswordNotOffered),
                )
                &&& outcome == first
            }
        }),
{
    let n = methods.len() as int;
    let u = sent_user.len() as int;
    let p = sent_password.len() as int;
    let greeting = seq![5u8, n as u8] + methods;
    let login = seq![1u8, u as u8] + sent_user + seq![p as u8] + sent_password;
    let b = greeting + login + rest;
    assert(greeting[0] == 5 && greeting[1] == n);
    assert(greeting.subrange(2, 2 + n) =~= methods);
    assert(greeting.skip(2 + n) =~= Seq::<u8>::empty());
    assert(b[0] == 5 && b[1] == n);
    assert(b.subrange(2, 2 + n) =~= methods);
    if exists|i: int| 0 <= i < methods.len() && methods[i] == 2 {
        let i = choose|i: int| 0 <= i < methods.len() && methods[i] == 2;
        assert(methods.contains(0x02));
        let s = b.skip(2 + n);
        assert(s =~= login + rest);
        assert(s[0] == 1 && s[1] == u);
        assert(s[2 + u] == p);
        assert(s.subrange(2, 2 + u) =~= sent_user);
        assert(s.subrange(3 + u, 3 + u + p) =~= sent_password);
        assert(seq![5u8, 2u8] + seq![1u8, 0u8] =~= seq![5u8, 2u8, 1u8, 0u8]);
        assert(seq![5u8, 2u8] + seq![1u8, 1u8] =~= seq![5u8, 2u8, 1u8, 1u8]);
    } else {
        assert(!methods.contains(0x02));
    }
}

/// A user name and a password sent as UTF-8 are let in exactly if both are the expected ones,
/// whatever methods were offered besides 0x02 and wherever it stood among them.
pub proof fn law_only_the_expected_are_let_in(
    before: Seq<u8>,
    behind: Seq<u8>,
    user: Seq<char>,
    password: Seq<char>,
    sent_user: Seq<char>,
    sent_password: Seq<char>,
)
    requires
        before.len() + behind.len() <= 254,
        encode_utf8(sent_user).len() <= 255,
        encode_utf8(sent_password).len() <= 255,
    ensures
        ({
            let b = seq![5u8, (before.len() + 1 + behind.len()) as u8] + (before + seq![2u8]
                + behind) + (seq![1u8, encode_utf8(sent_user).len() as u8] + encode_utf8(sent_user)
                + seq![encode_utf8(sent_password).len() as u8] + encode_utf8(sent_password));
            greeting_outcome(b, Some(user), Some(password)).1 is Done <==> sent_user == user
                && sent_password == password
        }),
{
    let methods = before + seq![2u8] + behind;
    assert(methods[before.len() as int] == 2);
    let x = encode_utf8(sent_user);
    let y = encode_utf8(sent_password);
    vstd::utf8::encode_utf8_valid_utf8(sent_user);
    vstd::utf8::encode_utf8_decode_utf8(sent_user);
    vstd::utf8::encode_utf8_valid_utf8(sent_password);
    vstd::utf8::encode_utf8_decode_utf8(sent_password);
    law_password_method_is_found_anywhere(methods, user, password, x, y, Seq::empty());
    let greeting = seq![5u8, methods.len() as u8] + methods;
    let login = seq![1u8, x.len() as u8] + x + seq![y.len() as u8] + y;
    assert(greeting + login + Seq::<u8>::empty() =~= greeting + login);
}

/// A client of a port without user name or without password is let in with `05 00` exactly if
/// 0x00 is among the methods that it offers, wherever it stands; otherwise it is answered
/// `05 ff`.
pub proof fn law_open_port_lets_in(
    methods: Seq<u8>,
    user: Option<Seq<char>>,
    password: Option<Seq<char>>,
    rest: Seq<u8>,
)
    requires
        methods.len() <= 255,
        user is None || password is None,
    ensures
        ({
            let b = seq![5u8, methods.len() as u8] + methods + rest;
            let outcome = greeting_outcome(b, user, password);
            if exists|i: int| 0 <= i < methods.len() && methods[i] == 0 {
                outcome == (
                    seq![5u8, 0u8],
                    Progress::<(), HandshakeError>::Done {
                        value: (),
                        used: (2 + methods.len()) as usize,
                    },
                )
            } else {
                outcome == (
                    seq![5u8, 0xffu8],
                    Progress::<(), HandshakeError>::Failed(HandshakeError::PasswordRequired),
                )
            }
        }),
{
    let n = methods.len() as int;
    let b = seq![5u8, n as u8] + methods + rest;
    assert(b[0] == 5 && b[1] == n);
    assert(b.subrange(2, 2 + n) =~= methods);
    if exists|i: int| 0 <= i < methods.len() && methods[i] == 0 {
        let i = choose|i: int| 0 <= i < methods.len() && methods[i] == 0;
        assert(methods.contains(0x00));
    } else {
        assert(!methods.contains(0x00));
    }
}

/// A client that speaks another version, and one that begins its login with another version than
/// 1, is let in on no port; the first gets no answer at all.
pub proof fn law_other_versions_are_turned_away(
    b: Seq<u8>,
    user: Option<Seq<char>>,
    password: Option<Seq<char>>,
)
    requires
        b.len() >= 2,
    ensures
        b[0] != 5 ==> greeting_outcome(b, user, password) == (
            Seq::<u8>::empty(),
            Progress::<(), HandshakeError>::Failed(HandshakeError::Version(b[0])),
        ),
        b[0] == 5 && b.len() >= 4 + b[1] && user is Some && password is Some && b[2 + b[1]] != 1
            ==> !(greeting_outcome(b, user, password).1 is Done)
            && !(greeting_outcome(b, user, password).1 is More),
{
}

/// Whatever part of a greeting has come, no more bytes are asked for than the client still sends:
/// nobody waits for bytes that do not come.
pub proof fn law_greeting_asks_for_no_more_than_comes(
    b: Seq<u8>,
    k: int,
    user: Option<Seq<char>>,
    password: Option<Seq<char>>,
)
    requires
        greeting_outcome(b, user, password).1 matches Progress::Done { used, .. } && 0 <= k < used
            && b.len() <= usize::MAX,
    ensures
        ({
            let used = match greeting_outcome(b, user, password).1 {
                Progress::Done { used, .. } => used as int,
                _ => 0,
            };
            greeting_outcome(b.take(k), user, password).1 matches Progress::More(n) && 1 <= n && k
                + n <= used && used <= b.len()
        }),
{
    let c = b.take(k);
    let m = b[1] as int;
    if k >= 2 {
        assert(c[0] == b[0] && c[1] == b[1]);
        if k >= 2 + m {
            assert(c.subrange(2, 2 + m) =~= b.subrange(2, 2 + m));
            let s = b.skip(2 + m);
            let t = c.skip(2 + m);
            assert(t =~= s.take(k - 2 - m));
            if t.len() >= 2 {
                assert(t[0] == s[0] && t[1] == s[1]);
                let u = s[1] as int;
                if t.len() >= 3 + u {
                    assert(t[2 + u] == s[2 + u]);
                }
            }
        }
    }
}

/// Whatever part of a target has come, no more bytes are asked for than belong to it.
pub proof fn law_target_asks_for_no_more_than_comes(b: Seq<u8>, k: int, empty_host: bool)
    requires
        target_of(b, empty_host) matches Progress::Done { used, .. } && 0 <= k < used && b.len()
            <= usize::MAX,
    ensures
        ({
            let used = match target_of(b, empty_host) {
                Progress::Done { used, .. } => used as int,
                _ => 0,
            };
            target_of(b.take(k), empty_host) matches Progress::More(n) && 1 <= n && k + n <= used
                && used <= b.len()
        }),
{
    let c = b.take(k);
    if k >= 1 {
        assert(c[0] == b[0]);
        if k >= 2 {
            assert(c[1] == b[1]);
        }
        if b[0] == 3 {
            let n = b[1] as int;
            if k >= 2 + n {
                assert(c.subrange(2, 2 + n) =~= b.subrange(2, 2 + n));
            }
        }
    }
}

/// Whatever part of a request or a reply has come, no more bytes are asked for than belong to it.
pub proof fn law_packet_asks_for_no_more_than_comes(b: Seq<u8>, k: int)
    requires
        packet_of(b) matches Progress::Done { used, .. } && 0 <= k < used && b.len() <= usize::MAX,
    ensures
        ({
            let used = match packet_of(b) {
                Progress::Done { used, .. } => used as int,
                _ => 0,
            };
            packet_of(b.take(k)) matches Progress::More(n) && 1 <= n && k + n <= used && used
                <= b.len()
        }),
{
    let c = b.take(k);
    let s = b.skip(3);
    if k >= 4 {
        assert(c[0] == b[0] && c[1] == b[1]);
        assert(c.skip(3) =~= s.take(k - 3));
        law_target_asks_for_no_more_than_comes(s, k - 3, true);
    } else {
        match target_of(s, true) {
            Progress::Done { used, .. } => {
                assert(used >= 1);
            },
            _ => {},
        }
    }
}

/// An IPv4 target is put on the wire as the type 1, the four octets and the port, high byte
/// first; an IPv6 target as the type 4, the sixteen octets and the port.
pub proof fn law_address_on_the_wire(v4: Ipv4Addr, v6: Ipv6Addr, port: u16)
    ensures
        target_bytes(address_text::socket_text(SocketAddr::V4 { ip: v4, port })) == Ok::<
            Seq<u8>,
            TargetError,
        >(seq![1u8, v4.a, v4.b, v4.c, v4.d, (port / 256) as u8, (port % 256) as u8]),
        target_bytes(
            address_text::socket_text(
                SocketAddr::V6 { ip: v6, port, flowinfo: 0, scope_id: 0 },
            ),
        ) == Ok::<Seq<u8>, TargetError>(
            seq![
                4u8,
                (v6.s0 / 256) as u8,
                (v6.s0 % 256) as u8,
                (v6.s1 / 256) as u8,
                (v6.s1 % 256) as u8,
                (v6.s2 / 256) as u8,
                (v6.s2 % 256) as u8,
                (v6.s3 / 256) as u8,
                (v6.s3 % 256) as u8,
                (v6.s4 / 256) as u8,
                (v6.s4 % 256) as u8,
                (v6.s5 / 256) as u8,
                (v6.s5 % 256) as u8,
                (v6.s6 / 256) as u8,
                (v6.s6 % 256) as u8,
                (v6.s7 / 256) as u8,
                (v6.s7 % 256) as u8,
                (port / 256) as u8,
                (port % 256) as u8,
            ],
        ),
{
    let a = SocketAddr::V4 { ip: v4, port };
    let b = SocketAddr::V6 { ip: v6, port, flowinfo: 0, scope_id: 0 };
    address_text::law_socket_text_reads_back(a);
    address_text::law_socket_text_reads_back(b);
    assert(address_bytes(a) =~= seq![
        1u8,
        v4.a,
        v4.b,
        v4.c,
        v4.d,
        (port / 256) as u8,
        (port % 256) as u8,
    ]);
    assert(address_bytes(b) =~= seq![
        4u8,
        (v6.s0 / 256) as u8,
        (v6.s0 % 256) as u8,
        (v6.s1 / 256) as u8,
        (v6.s1 % 256) as u8,
        (v6.s2 / 256) as u8,
        (v6.s2 % 256) as u8,
        (v6.s3 / 256) as u8,
        (v6.s3 % 256) as u8,
        (v6.s4 / 256) as u8,
        (v6.s4 % 256) as u8,
        (v6.s5 / 256) as u8,
        (v6.s5 % 256) as u8,
        (v6.s6 / 256) as u8,
        (v6.s6 % 256) as u8,
        (v6.s7 / 256) as u8,
        (v6.s7 % 256) as u8,
        (port / 256) as u8,
        (port % 256) as u8,
    ]);
}

/// A host name with a port is put on the wire as the type 3, the length of the name, the name and
/// the port, high byte first. A name that is empty, longer than 255 bytes, holds a colon or white
/// space is refused.
pub proof fn law_name_on_the_wire(domain: Seq<char>, port: u16)
    requires
        address_text::socket_of(domain + seq![':'] + text::decimal(port as nat)) is None,
    ensures
        ({
            let outcome = target_bytes(domain + seq![':'] + text::decimal(port as nat));
            if domain.len() == 0 || encode_utf8(domain).len() > 255 || (exists|i: int|
                0 <= i < domain.len() && (domain[i] == ':' || text::is_white(#[trigger] domain[i])))
            {
                outcome == Err::<Seq<u8>, TargetError>(TargetError::BadDomain)
            } else {
                outcome == Ok::<Seq<u8>, TargetError>(
                    seq![3u8, encode_utf8(domain).len() as u8] + encode_utf8(domain) + seq![
                        (port / 256) as u8,
                        (port % 256) as u8,
                    ],
                )
            }
        }),
{
    let digits = text::decimal(port as nat);
    let s = domain + seq![':'] + digits;
    text::lemma_decimal(port as nat);
    text::law_number_of_decimal(port as nat, 65535);
    text::lemma_last_position_bounds(s, ':');
    let colon = text::last_position(s, ':');
    assert(s[domain.len() as int] == ':');
    assert(colon == domain.len()) by {
        if colon > domain.len() {
            assert(s[colon] == digits[colon - domain.len() - 1]);
            assert(text::is_digit(digits[colon - domain.len() - 1]));
        }
    }
    assert(s.take(colon) =~= domain);
    assert(s.skip(colon + 1) =~= digits);
    if exists|i: int|
        0 <= i < domain.len() && (domain[i] == ':' || text::is_white(#[trigger] domain[i])) {
        let i = choose|i: int|
            0 <= i < domain.len() && (domain[i] == ':' || text::is_white(#[trigger] domain[i]));
        if domain[i] == ':' {
            assert(domain.contains(':'));
        }
    } else {
        if domain.contains(':') {
            let i = choose|i: int| 0 <= i < domain.len() && domain[i] == ':';
            assert(domain[i] == ':');
        }
    }
}

/// Where a target is no address and its last colon is followed by no port, or there is no colon,
/// it is refused as such.
pub proof fn law_target_without_port_is_refused(s: Seq<char>, domain: Seq<char>, port: Seq<char>)
    requires
        !port.contains(':'),
        usable_domain(domain),
        text::number(port) is None || text::number(port)->0 > 65535,
        address_text::socket_of(domain + seq![':'] + port) is None,
    ensures
        target_bytes(domain + seq![':'] + port) == Err::<Seq<u8>, TargetError>(
            TargetError::BadPort,
        ),
        !s.contains(':') && address_text::socket_of(s) is None ==> target_bytes(s) == Err::<
            Seq<u8>,
            TargetError,
        >(TargetError::NoPort),
{
    let t = domain + seq![':'] + port;
    text::lemma_last_position_bounds(t, ':');
    let colon = text::last_position(t, ':');
    assert(t[domain.len() as int] == ':');
    assert(colon == domain.len()) by {
        if colon > domain.len() {
            assert(t[colon] == port[colon - domain.len() - 1]);
            assert(port.contains(port[colon - domain.len() - 1]));
        }
    }
    assert(t.take(colon) =~= domain);
    assert(t.skip(colon + 1) =~= port);
    text::lemma_last_position_bounds(s, ':');
    if text::last_position(s, ':') >= 0 {
        assert(s.contains(':'));
    }
}

/// The bytes of a request or a reply name their target: an IPv4 one by its four octets, a host
/// name by its text, an IPv6 one in brackets, each with the port, high byte first. The code is
/// the second byte, and the bytes behind the port are not part of it.
pub proof fn law_packet_names_its_target(
    code: u8,
    reserved: u8,
    v4: Ipv4Addr,
    v6: Ipv6Addr,
    host: Seq<char>,
    hi: u8,
    lo: u8,
    rest: Seq<u8>,
)
    requires
        encode_utf8(host).len() <= 255,
    ensures
        packet_of(seq![5u8, code, reserved, 1u8, v4.a, v4.b, v4.c, v4.d, hi, lo] + rest) == (
        Progress::<(u8, Seq<char>), PacketError>::Done {
            value: (
                code,
                address_text::ipv4_text(v4) + seq![':'] + text::decimal((hi * 256 + lo) as nat),
            ),
            used: 10,
        }),
        packet_of(
            seq![5u8, code, reserved, 3u8, encode_utf8(host).len() as u8] + encode_utf8(host)
                + seq![hi, lo] + rest,
        ) == (Progress::<(u8, Seq<char>), PacketError>::Done {
            value: (code, host + seq![':'] + text::decimal((hi * 256 + lo) as nat)),
            used: (7 + encode_utf8(host).len()) as usize,
        }),
        packet_of(seq![5u8, code, reserved, 4u8] + v6.octets() + seq![hi, lo] + rest) == (
        Progress::<(u8, Seq<char>), PacketError>::Done {
            value: (
                code,
                seq!['['] + address_text::ipv6_text(v6) + seq![']'] + seq![':'] + text::decimal(
                    (hi * 256 + lo) as nat,
                ),
            ),
            used: 22,
        }),
{
    let b4 = seq![5u8, code, reserved, 1u8, v4.a, v4.b, v4.c, v4.d, hi, lo] + rest;
    let s4 = b4.skip(3);
    assert(b4[0] == 5 && b4[1] == code);
    assert(s4[0] == 1 && s4[1] == v4.a && s4[2] == v4.b && s4[3] == v4.c && s4[4] == v4.d && s4[5]
        == hi && s4[6] == lo);
    let name = encode_utf8(host);
    let n = name.len() as int;
    vstd::utf8::encode_utf8_valid_utf8(host);
    vstd::utf8::encode_utf8_decode_utf8(host);
    let bn = seq![5u8, code, reserved, 3u8, n as u8] + name + seq![hi, lo] + rest;
    let sn = bn.skip(3);
    assert(bn[0] == 5 && bn[1] == code);
    assert(sn[0] == 3 && sn[1] == n);
    assert(sn.subrange(2, 2 + n) =~= name);
    assert(sn[2 + n] == hi && sn[3 + n] == lo);
    let b6 = seq![5u8, code, reserved, 4u8] + v6.octets() + seq![hi, lo] + rest;
    let s6 = b6.skip(3);
    v6.lemma_octets();
    assert(b6[0] == 5 && b6[1] == code);
    assert(s6[0] == 4);
    assert(s6.subrange(1, 17) =~= v6.octets());
    assert(s6[17] == hi && s6[18] == lo);
}

/// A request or a reply of another version, or of an address type other than 1, 3 and 4, is
/// refused.
pub proof fn law_strange_packets_are_refused(b: Seq<u8>)
    requires
        b.len() >= 4,
    ensures
        b[0] != 5 ==> packet_of(b) == (Progress::<(u8, Seq<char>), PacketError>::Failed(
            PacketError::Version,
        )),
        b[0] == 5 && b[3] != 1 && b[3] != 3 && b[3] != 4 ==> packet_of(b) == (Progress::<
            (u8, Seq<char>),
            PacketError,
        >::Failed(PacketError::AddressType(b[3]))),
{
    assert(b.skip(3)[0] == b[3]);
}

/// A reply is `05`, its code, `00 01`, four octets and the port, high byte first. An IPv6 address
/// is not told: its place holds zeros.
pub proof fn law_reply_on_the_wire(rep: u8, v4: Ipv4Addr, v6: Ipv6Addr, port: u16)
    ensures
        reply_bytes(rep, SocketAddr::V4 { ip: v4, port }) == seq![
            5u8,
            rep,
            0u8,
            1u8,
            v4.a,
            v4.b,
            v4.c,
            v4.d,
            (port / 256) as u8,
            (port % 256) as u8,
        ],
        reply_bytes(rep, SocketAddr::V6 { ip: v6, port, flowinfo: 0, scope_id: 0 }) == seq![
            5u8,
            rep,
            0u8,
            1u8,
            0u8,
            0u8,
            0u8,
            0u8,
            (port / 256) as u8,
            (port % 256) as u8,
        ],
{
}

/// A connect packet is `05 01 00` and the target.
pub proof fn law_connect_on_the_wire(s: Seq<char>)
    ensures
        connect_packet(s) is Ok <==> target_bytes(s) is Ok,
        connect_packet(s) matches Ok(packet) ==> packet.len() >= 3 && packet.take(3) == seq![
            5u8,
            1u8,
            0u8,
        ] && packet.skip(3) == target_bytes(s)->Ok_0,
        connect_packet(s) matches Err(error) ==> target_bytes(s) == Err::<Seq<u8>, TargetError>(
            error,
        ),
{
    match target_bytes(s) {
        Ok(bytes) => {
            let packet = seq![SOCKS_VERSION, CMD_CONNECT, 0u8] + bytes;
            assert(packet.take(3) =~= seq![5u8, 1u8, 0u8]);
            assert(packet.skip(3) =~= bytes);
        },
        Err(_) => {},
    }
}

/// A text on one line keeps every character but line ends, in order; a text without line ends
/// stays as it is.
pub proof fn law_line_ends_alone_are_dropped(s: Seq<char>, t: Seq<char>)
    ensures
        on_one_line(s + t) == on_one_line(s) + on_one_line(t),
        is_one_line(s) ==> on_one_line(s) == s,
        on_one_line(seq!['\r', '\n']) == Seq::<char>::empty(),
    decreases s.len() + t.len(),
{
    reveal_with_fuel(on_one_line, 3);
    let ends = seq!['\r', '\n'];
    assert(ends.drop_last() =~= seq!['\r']);
    assert(seq!['\r'].drop_last() =~= Seq::<char>::empty());
    if t.len() > 0 {
        law_line_ends_alone_are_dropped(s, t.drop_last());
        assert((s + t).drop_last() =~= s + t.drop_last());
        assert((s + t).last() == t.last());
        assert(on_one_line(s + t) =~= on_one_line(s) + on_one_line(t));
    } else {
        assert(s + t =~= s);
        assert(on_one_line(s) + on_one_line(t) =~= on_one_line(s));
        if s.len() > 0 {
            law_line_ends_alone_are_dropped(s.drop_last(), t);
            if is_one_line(s) {
                assert(is_one_line(s.drop_last()));
                assert(s.drop_last().push(s.last()) =~= s);
            }
        }
    }
}

/// What is logged of a client that is turned away names the reason: the version that it speaks,
/// that it begins its login wrongly, that its user name or password is wrong, or that it offers
/// no method that the port takes.
pub proof fn law_refusals_are_named(version: u8)
    ensures
        refusal_words(HandshakeError::Version(version)) == "Unsupported SOCKS version: "@
            + text::decimal(version as nat),
        refusal_words(HandshakeError::AuthVersion) == "Invalid SOCKS Auth sub-negotiation version"@,
        refusal_words(HandshakeError::Credentials) == "Invalid SOCKS credentials"@,
        refusal_words(HandshakeError::PasswordNotOffered)
            == "Client does not support password auth"@,
        refusal_words(HandshakeError::PasswordRequired)
            == "Client requires auth but server has none"@,
{
}

/// The timing log names each time behind its name, in milliseconds, between the target and the
/// result.
pub proof fn law_timing_names_its_times(
    agent: Seq<char>,
    port: u16,
    target: Seq<char>,
    data_conn_ms: u128,
    greeting_rtt_ms: u128,
    connect_reply_ms: u128,
    total_ms: u128,
    result: Seq<char>,
)
    requires
        is_one_line(agent),
        is_one_line(target),
    ensures
        timing_text(
            agent,
            port,
            target,
            data_conn_ms,
            greeting_rtt_ms,
            connect_reply_ms,
            total_ms,
            result,
        ) == "timing agent="@ + agent + " port="@ + text::decimal(port as nat) + " target="@
            + target + " data_conn_ms="@ + text::decimal(data_conn_ms as nat)
            + " greeting_rtt_ms="@ + text::decimal(greeting_rtt_ms as nat) + " connect_reply_ms="@
            + text::decimal(connect_reply_ms as nat) + " total_ms="@ + text::decimal(
            total_ms as nat,
        ) + " result="@ + result,
{
    law_line_ends_alone_are_dropped(agent, Seq::empty());
    law_line_ends_alone_are_dropped(target, Seq::empty());
}

} // verus!
