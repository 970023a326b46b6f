//! Internet addresses: their values, their text forms and the ranges that the tunnel tells apart.
use vstd::prelude::*;


verus! {

// ---------------------------------------------------------------------------------------------
// Values
// ---------------------------------------------------------------------------------------------

/// An IPv4 address by its four octets.
#[derive(Clone, Copy, Debug, PartialEq, Eq, Structural)]
pub struct Ipv4Addr {
    pub a: u8,
    pub b: u8,
    pub c: u8,
    pub d: u8,
}

/// An IPv6 address by its eight segments of sixteen bits.
#[derive(Clone, Copy, Debug, PartialEq, Eq, Structural)]
pub struct Ipv6Addr {
    pub s0: u16,
    pub s1: u16,
    pub s2: u16,
    pub s3: u16,
    pub s4: u16,
    pub s5: u16,
    pub s6: u16,
    pub s7: u16,
}

/// An address of either version.
#[derive(Clone, Copy, Debug, PartialEq, Eq, Structural)]
pub enum IpAddr {
    V4(Ipv4Addr),
    V6(Ipv6Addr),
}

/// An address with a port. An IPv6 one also has a flow label and a scope.
#[allow(inconsistent_fields)]
#[derive(Clone, Copy, Debug, PartialEq, Eq, Structural)]
pub enum SocketAddr {
    V4 { ip: Ipv4Addr, port: u16 },
    V6 { ip: Ipv6Addr, port: u16, flowinfo: u32, scope_id: u32 },
}

/// The two bytes of a number, the high one first.
pub open spec fn be16(n: u16) -> Seq<u8> {
    seq![(n / 256) as u8, (n % 256) as u8]
}

/// The number that two bytes give, the high one first.
pub open spec fn from_be16(hi: u8, lo: u8) -> u16 {
    (hi as int * 256 + lo as int) as u16
}

/// Appends the two bytes of a number, the high one first.
pub fn push_be16(out: &mut Vec<u8>, n: u16)
    ensures
        final(out)@ == old(out)@ + be16(n),
{
    out.push((n / 256) as u8);
    out.push((n % 256) as u8);
    assert(out@ =~= old(out)@ + be16(n));
}

/// The number that two bytes give, the high one first.
pub fn join_be16(hi: u8, lo: u8) -> (res: u16)
    ensures
        res == from_be16(hi, lo),
{
    (hi as u16) * 256 + (lo as u16)
}

/// The two bytes of a number give it back.
pub proof fn lemma_be16(n: u16)
    ensures
        be16(n).len() == 2,
        from_be16(be16(n)[0], be16(n)[1]) == n,
{
}

/// The four bytes of a number, the highest one first.
pub open spec fn be32(n: u32) -> Seq<u8> {
    seq![
        (n / 0x100_0000) as u8,
        (n / 0x1_0000 % 256) as u8,
        (n / 256 % 256) as u8,
        (n % 256) as u8,
    ]
}

/// The number that four bytes give, the highest one first.
pub open spec fn from_be32(b0: u8, b1: u8, b2: u8, b3: u8) -> u32 {
    (b0 as int * 0x100_0000 + b1 as int * 0x1_0000 + b2 as int * 256 + b3 as int) as u32
}

/// Appends the four bytes of a number, the highest one first.
pub fn push_be32(out: &mut Vec<u8>, n: u32)
    ensures
        final(out)@ == old(out)@ + be32(n),
{
    out.push((n / 0x100_0000) as u8);
    out.push((n / 0x1_0000 % 256) as u8);
    out.push((n / 256 % 256) as u8);
    out.push((n % 256) as u8);
    assert(out@ =~= old(out)@ + be32(n));
}

/// The number that four bytes give, the highest one first.
pub fn join_be32(b0: u8, b1: u8, b2: u8, b3: u8) -> (res: u32)
    ensures
        res == from_be32(b0, b1, b2, b3),
{
    (b0 as u32) * 0x100_0000 + (b1 as u32) * 0x1_0000 + (b2 as u32) * 256 + (b3 as u32)
}

/// The four bytes of a number give it back.
pub proof fn lemma_be32(n: u32)
    ensures
        be32(n).len() == 4,
        from_be32(be32(n)[0], be32(n)[1], be32(n)[2], be32(n)[3]) == n,
{
}

impl Ipv4Addr {
    /// The four octets.
    pub open spec fn octets(self) -> Seq<u8> {
        seq![self.a, self.b, self.c, self.d]
    }

    /// `0.0.0.0`.
    pub fn unspecified() -> (res: Ipv4Addr)
        ensures
            res.octets() == seq![0u8, 0, 0, 0],
    {
        Ipv4Addr { a: 0, b: 0, c: 0, d: 0 }
    }

    /// Appends the four octets.
    pub fn push_octets(self, out: &mut Vec<u8>)
        ensures
            final(out)@ == old(out)@ + self.octets(),
    {
        out.push(self.a);
        out.push(self.b);
        out.push(self.c);
        out.push(self.d);
        assert(out@ =~= old(out)@ + self.octets());
    }

    /// 10.0.0.0/8, 172.16.0.0/12 and 192.168.0.0/16.
    pub open spec fn private(self) -> bool {
        ||| self.a == 10
        ||| self.a == 172 && 16 <= self.b <= 31
        ||| self.a == 192 && self.b == 168
    }

    /// 127.0.0.0/8.
    pub open spec fn loopback(self) -> bool {
        self.a == 127
    }

    /// 169.254.0.0/16.
    pub open spec fn link_local(self) -> bool {
        self.a == 169 && self.b == 254
    }

    /// 100.64.0.0/10, which carriers share between their customers.
    pub open spec fn carrier_shared(self) -> bool {
        self.a == 100 && 64 <= self.b <= 127
    }

    /// Whether the address is in a private range.
    pub fn is_private(self) -> (res: bool)
        ensures
            res == self.private(),
    {
        self.a == 10 || (self.a == 172 && 16 <= self.b && self.b <= 31) || (self.a == 192 && self.b
            == 168)
    }

    /// Whether the address is of the machine itself.
    pub fn is_loopback(self) -> (res: bool)
        ensures
            res == self.loopback(),
    {
        self.a == 127
    }
}

impl Ipv6Addr {
    /// The eight segments.
    pub open spec fn segments(self) -> Seq<u16> {
        seq![self.s0, self.s1, self.s2, self.s3, self.s4, self.s5, self.s6, self.s7]
    }

    /// The sixteen octets.
    pub open spec fn octets(self) -> Seq<u8> {
        be16(self.s0) + be16(self.s1) + be16(self.s2) + be16(self.s3) + be16(self.s4) + be16(
            self.s5,
        ) + be16(self.s6) + be16(self.s7)
    }

    /// The address with the given segments.
    pub open spec fn of_segments(s: Seq<u16>) -> Ipv6Addr {
        Ipv6Addr {
            s0: s[0],
            s1: s[1],
            s2: s[2],
            s3: s[3],
            s4: s[4],
            s5: s[5],
            s6: s[6],
            s7: s[7],
        }
    }

    /// The address with the given octets.
    pub open spec fn of_octets(b: Seq<u8>) -> Ipv6Addr {
        Ipv6Addr {
            s0: from_be16(b[0], b[1]),
            s1: from_be16(b[2], b[3]),
            s2: from_be16(b[4], b[5]),
            s3: from_be16(b[6], b[7]),
            s4: from_be16(b[8], b[9]),
            s5: from_be16(b[10], b[11]),
            s6: from_be16(b[12], b[13]),
            s7: from_be16(b[14], b[15]),
        }
    }

    /// The octets of an address give it back.
    pub proof fn lemma_octets(self)
        ensures
            self.octets().len() == 16,
            Ipv6Addr::of_octets(self.octets()) == self,
    {
        lemma_be16(self.s0);
        lemma_be16(self.s1);
        lemma_be16(self.s2);
        lemma_be16(self.s3);
        lemma_be16(self.s4);
        lemma_be16(self.s5);
        lemma_be16(self.s6);
        lemma_be16(self.s7);
    }

    /// Appends the sixteen octets.
    pub fn push_octets(self, out: &mut Vec<u8>)
        ensures
            final(out)@ == old(out)@ + self.octets(),
    {
        push_be16(out, self.s0);
        push_be16(out, self.s1);
        push_be16(out, self.s2);
        push_be16(out, self.s3);
        push_be16(out, self.s4);
        push_be16(out, self.s5);
        push_be16(out, self.s6);
        push_be16(out, self.s7);
        assert(out@ =~= old(out)@ + self.octets());
    }

    /// The address with the given octets.
    pub fn from_octets(b: &[u8]) -> (res: Ipv6Addr)
        requires
            b@.len() == 16,
        ensures
            res == Ipv6Addr::of_octets(b@),
    {
        Ipv6Addr {
            s0: join_be16(b[0], b[1]),
            s1: join_be16(b[2], b[3]),
            s2: join_be16(b[4], b[5]),
            s3: join_be16(b[6], b[7]),
            s4: join_be16(b[8], b[9]),
            s5: join_be16(b[10], b[11]),
            s6: join_be16(b[12], b[13]),
            s7: join_be16(b[14], b[15]),
        }
    }

    /// Whether the first `n` segments are zero.
    pub open spec fn leading_zeros(self, n: int) -> bool {
        forall|i: int| 0 <= i < n ==> #[trigger] self.segments()[i] == 0
    }

    /// Whether the first five segments are zero.
    fn five_zeros(self) -> (res: bool)
        ensures
            res == self.leading_zeros(5),
    {
        proof {
            let s = self.segments();
            assert(s[0] == self.s0 && s[1] == self.s1 && s[2] == self.s2 && s[3] == self.s3 && s[4]
                == self.s4);
        }
        self.s0 == 0 && self.s1 == 0 && self.s2 == 0 && self.s3 == 0 && self.s4 == 0
    }

    /// `::1`.
    pub open spec fn loopback(self) -> bool {
        self.leading_zeros(7) && self.s7 == 1
    }

    /// `::`.
    pub open spec fn unspecified(self) -> bool {
        self.leading_zeros(8)
    }

    /// fc00::/7.
    pub open spec fn unique_local(self) -> bool {
        0xfc00 <= self.s0 <= 0xfdff
    }

    /// fe80::/10.
    pub open spec fn link_local(self) -> bool {
        0xfe80 <= self.s0 <= 0xfebf
    }

    /// The IPv4 address of an IPv4-mapped one, `::ffff:a.b.c.d`.
    pub open spec fn mapped(self) -> Option<Ipv4Addr> {
        if self.leading_zeros(5) && self.s5 == 0xffff {
            Some(low_ipv4(self.s6, self.s7))
        } else {
            None
        }
    }

    /// The IPv4 address of an IPv4-mapped or IPv4-compatible one: the first five segments are
    /// zero and the sixth is zero or `ffff`.
    pub open spec fn embedded(self) -> Option<Ipv4Addr> {
        if self.leading_zeros(5) && (self.s5 == 0 || self.s5 == 0xffff) {
            Some(low_ipv4(self.s6, self.s7))
        } else {
            None
        }
    }

    /// Whether the address is `::1`.
    pub fn is_loopback(self) -> (res: bool)
        ensures
            res == self.loopback(),
    {
        proof {
            let s = self.segments();
            assert(s[5] == self.s5 && s[6] == self.s6);
        }
        self.five_zeros() && self.s5 == 0 && self.s6 == 0 && self.s7 == 1
    }

    /// Whether the address is `::`.
    pub fn is_unspecified(self) -> (res: bool)
        ensures
            res == self.unspecified(),
    {
        proof {
            let s = self.segments();
            assert(s[5] == self.s5 && s[6] == self.s6 && s[7] == self.s7);
        }
        self.five_zeros() && self.s5 == 0 && self.s6 == 0 && self.s7 == 0
    }

    /// The IPv4 address of an IPv4-mapped one.
    pub fn to_ipv4_mapped(self) -> (res: Option<Ipv4Addr>)
        ensures
            res == self.mapped(),
    {
        if self.five_zeros() && self.s5 == 0xffff {
            Some(low_address(self.s6, self.s7))
        } else {
            None
        }
    }

    /// The IPv4 address of an IPv4-mapped or IPv4-compatible one.
    pub fn to_ipv4(self) -> (res: Option<Ipv4Addr>)
        ensures
            res == self.embedded(),
    {
        if self.five_zeros() && (self.s5 == 0 || self.s5 == 0xffff) {
            Some(low_address(self.s6, self.s7))
        } else {
            None
        }
    }
}

/// The IPv4 address in the last two segments of an IPv6 one.
pub open spec fn low_ipv4(s6: u16, s7: u16) -> Ipv4Addr {
    Ipv4Addr {
        a: (s6 / 256) as u8,
        b: (s6 % 256) as u8,
        c: (s7 / 256) as u8,
        d: (s7 % 256) as u8,
    }
}

/// The IPv4 address in the last two segments of an IPv6 one.
pub fn low_address(s6: u16, s7: u16) -> (res: Ipv4Addr)
    ensures
        res == low_ipv4(s6, s7),
{
    Ipv4Addr {
        a: (s6 / 256) as u8,
        b: (s6 % 256) as u8,
        c: (s7 / 256) as u8,
        d: (s7 % 256) as u8,
    }
}

impl SocketAddr {
    /// The address without its port.
    pub open spec fn ip_spec(self) -> IpAddr {
        match self {
            SocketAddr::V4 { ip, port } => IpAddr::V4(ip),
            SocketAddr::V6 { ip, port, flowinfo, scope_id } => IpAddr::V6(ip),
        }
    }

    /// The port.
    pub open spec fn port_spec(self) -> u16 {
        match self {
            SocketAddr::V4 { ip, port } => port,
            SocketAddr::V6 { ip, port, flowinfo, scope_id } => port,
        }
    }

    /// An address with a port.
    pub open spec fn of(ip: IpAddr, port: u16) -> SocketAddr {
        match ip {
            IpAddr::V4(ip) => SocketAddr::V4 { ip, port },
            IpAddr::V6(ip) => SocketAddr::V6 { ip, port, flowinfo: 0, scope_id: 0 },
        }
    }

    /// An address with a port.
    pub fn new(ip: IpAddr, port: u16) -> (res: SocketAddr)
        ensures
            res == SocketAddr::of(ip, port),
    {
        match ip {
            IpAddr::V4(ip) => SocketAddr::V4 { ip, port },
            IpAddr::V6(ip) => SocketAddr::V6 { ip, port, flowinfo: 0, scope_id: 0 },
        }
    }

    /// The address without its port.
    pub fn ip(self) -> (res: IpAddr)
        ensures
            res == self.ip_spec(),
    {
        match self {
            SocketAddr::V4 { ip, port: _ } => IpAddr::V4(ip),
            SocketAddr::V6 { ip, port: _, flowinfo: _, scope_id: _ } => IpAddr::V6(ip),
        }
    }

    /// The port.
    pub fn port(self) -> (res: u16)
        ensures
            res == self.port_spec(),
    {
        match self {
            SocketAddr::V4 { ip: _, port } => port,
            SocketAddr::V6 { ip: _, port, flowinfo: _, scope_id: _ } => port,
        }
    }

    /// Whether this is an IPv4 address.
    pub fn is_ipv4(self) -> (res: bool)
        ensures
            res == (self is V4),
    {
        match self {
            SocketAddr::V4 { ip: _, port: _ } => true,
            SocketAddr::V6 { ip: _, port: _, flowinfo: _, scope_id: _ } => false,
        }
    }
}

/// Two and four bytes of a number stand for it with the highest first.
pub proof fn law_highest_byte_first(n: u16, m: u32)
    ensures
        be16(n).len() == 2 && be16(n)[0] * 256 + be16(n)[1] == n,
        be32(m).len() == 4 && be32(m)[0] * 0x100_0000 + be32(m)[1] * 0x1_0000 + be32(m)[2] * 256
            + be32(m)[3] == m,
        from_be16(be16(n)[0], be16(n)[1]) == n,
        from_be32(be32(m)[0], be32(m)[1], be32(m)[2], be32(m)[3]) == m,
{
}

/// The ranges of IPv4 addresses that are told apart, with an address read as one number: private
/// are 10.0.0.0 to 10.255.255.255, 172.16.0.0 to 172.31.255.255 and 192.168.0.0 to
/// 192.168.255.255, loopback 127.0.0.0 to 127.255.255.255, link-local 169.254.0.0 to
/// 169.254.255.255, and shared by a carrier 100.64.0.0 to 100.127.255.255.
pub proof fn law_ipv4_ranges(ip: Ipv4Addr)
    ensures
        ({
            let n = ip.a * 0x100_0000 + ip.b * 0x1_0000 + ip.c * 0x100 + ip.d;
            &&& ip.private() <==> (0x0a00_0000 <= n <= 0x0aff_ffff) || (0xac10_0000 <= n
                <= 0xac1f_ffff) || (0xc0a8_0000 <= n <= 0xc0a8_ffff)
            &&& ip.loopback() <==> 0x7f00_0000 <= n <= 0x7fff_ffff
            &&& ip.link_local() <==> 0xa9fe_0000 <= n <= 0xa9fe_ffff
            &&& ip.carrier_shared() <==> 0x6440_0000 <= n <= 0x647f_ffff
        }),
{
}

/// The ranges of IPv6 addresses that are told apart, by the octets of an address: `::1` is
/// loopback, `::` unspecified, an address whose first seven bits are those of `fc` is unique
/// local, and one whose first ten are those of `fe80` is link-local.
pub proof fn law_ipv6_ranges(ip: Ipv6Addr)
    ensures
        ip.loopback() <==> ip.octets() == seq![0u8, 0, 0, 0, 0, 0, 0, 0, 0, 0, 0, 0, 0, 0, 0, 1],
        ip.unspecified() <==> ip.octets() == seq![0u8, 0, 0, 0, 0, 0, 0, 0, 0, 0, 0, 0, 0, 0, 0, 0],
        ip.unique_local() <==> ip.octets()[0] == 0xfc || ip.octets()[0] == 0xfd,
        ip.link_local() <==> ip.octets()[0] == 0xfe && ip.octets()[1] / 64 == 2,
{
    ip.lemma_octets();
    let one = seq![0u8, 0, 0, 0, 0, 0, 0, 0, 0, 0, 0, 0, 0, 0, 0, 1];
    let none = seq![0u8, 0, 0, 0, 0, 0, 0, 0, 0, 0, 0, 0, 0, 0, 0, 0];
    let s = ip.segments();
    if ip.loopback() || ip.unspecified() {
        assert(s[0] == 0 && s[1] == 0 && s[2] == 0 && s[3] == 0 && s[4] == 0 && s[5] == 0 && s[6]
            == 0);
        assert(ip.unspecified() ==> s[7] == 0);
        if ip.loopback() {
            assert(ip.octets() =~= one);
        } else {
            assert(ip.octets() =~= none);
        }
    }
    if ip.octets() == one {
        assert(Ipv6Addr::of_octets(one) == ip);
        assert(ip.loopback());
    }
    if ip.octets() == none {
        assert(Ipv6Addr::of_octets(none) == ip);
        assert(ip.unspecified());
    }
}

/// An IPv4 address is found in the IPv6 address that is ten zeros, two bytes ff and its octets,
/// and an embedded one also behind twelve zeros.
pub proof fn law_ipv4_in_ipv6(ip: Ipv4Addr, other: Ipv6Addr)
    ensures
        ({
            let s6 = (ip.a * 256 + ip.b) as u16;
            let s7 = (ip.c * 256 + ip.d) as u16;
            let mapped = Ipv6Addr { s0: 0, s1: 0, s2: 0, s3: 0, s4: 0, s5: 0xffff, s6, s7 };
            let low = Ipv6Addr { s0: 0, s1: 0, s2: 0, s3: 0, s4: 0, s5: 0, s6, s7 };
            &&& mapped.mapped() == Some(ip)
            &&& mapped.embedded() == Some(ip)
            &&& low.embedded() == Some(ip)
            &&& low.mapped() is None
        }),
        other.mapped() matches Some(v4) ==> other.octets() == seq![
            0u8,
            0,
            0,
            0,
            0,
            0,
            0,
            0,
            0,
            0,
            0xff,
            0xff,
            v4.a,
            v4.b,
            v4.c,
            v4.d,
        ],
{
    if other.mapped() is Some {
        let s = other.segments();
        assert(s[0] == 0 && s[1] == 0 && s[2] == 0 && s[3] == 0 && s[4] == 0);
        let v4 = other.mapped()->0;
        assert(other.octets() =~= seq![
            0u8,
            0,
            0,
            0,
            0,
            0,
            0,
            0,
            0,
            0,
            0xff,
            0xff,
            v4.a,
            v4.b,
            v4.c,
            v4.d,
        ]);
    }
}

/// The octets of an IPv6 address give it back, and so do the octets that it was made of.
pub proof fn law_octets_read_back(ip: Ipv6Addr, b: Seq<u8>)
    requires
        b.len() == 16,
    ensures
        Ipv6Addr::of_octets(ip.octets()) == ip,
        Ipv6Addr::of_octets(b).octets() == b,
{
    ip.lemma_octets();
    let made = Ipv6Addr::of_octets(b);
    made.lemma_octets();
    assert(made.octets() =~= b);
}

/// An address that holds no IPv4 one, by its octets, gives none.
pub proof fn law_no_ipv4_in_ipv6(ip: Ipv6Addr)
    ensures
        ip.embedded() matches Some(v4) ==> ip.octets().take(10) == seq![
            0u8,
            0,
            0,
            0,
            0,
            0,
            0,
            0,
            0,
            0,
        ] && (ip.s5 == 0 || ip.s5 == 0xffff) && ip.octets().skip(12) == v4.octets(),
        ip.embedded() is None ==> ip.mapped() is None,
{
    ip.lemma_octets();
    match ip.embedded() {
        Some(v4) => {
            let s = ip.segments();
            assert(s[0] == 0 && s[1] == 0 && s[2] == 0 && s[3] == 0 && s[4] == 0);
            assert(ip.octets().take(10) =~= seq![0u8, 0, 0, 0, 0, 0, 0, 0, 0, 0]);
            assert(ip.octets().skip(12) =~= v4.octets());
        },
        None => {},
    }
}

} // verus!
