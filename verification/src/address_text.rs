//! The text forms of internet addresses: writing and reading them.
use vstd::prelude::*;
use vstd::slice::slice_subrange;

use crate::net::{IpAddr, Ipv4Addr, Ipv6Addr, SocketAddr};
use crate::text;

verus! {

// ---------------------------------------------------------------------------------------------
// Writing
// ---------------------------------------------------------------------------------------------

/// `a.b.c.d`, each octet in base ten.
pub open spec fn ipv4_text(ip: Ipv4Addr) -> Seq<char> {
    text::joined(
        seq![
            text::decimal(ip.a as nat),
            text::decimal(ip.b as nat),
            text::decimal(ip.c as nat),
            text::decimal(ip.d as nat),
        ],
        '.',
    )
}

/// Segments in base sixteen with colons between them.
pub open spec fn segments_text(s: Seq<u16>) -> Seq<char> {
    text::joined(s.map_values(|n: u16| text::hex_number(n as nat)), ':')
}

/// How many zero segments follow one another from index `i` on.
pub open spec fn zero_run(s: Seq<u16>, i: int) -> int
    decreases s.len() - i,
{
    if 0 <= i < s.len() && s[i] == 0 {
        1 + zero_run(s, i + 1)
    } else {
        0
    }
}

/// Where, among the first `n` indices, the first of the longest zero runs starts.
pub open spec fn longest_zero_run(s: Seq<u16>, n: int) -> int
    decreases n,
{
    if n <= 1 {
        0
    } else {
        let best = longest_zero_run(s, n - 1);
        if zero_run(s, n - 1) > zero_run(s, best) {
            n - 1
        } else {
            best
        }
    }
}

/// An IPv6 address as text: an IPv4-mapped one keeps its dotted form, and elsewhere the first of
/// the longest runs of two or more zero segments becomes `::`.
pub open spec fn ipv6_text(ip: Ipv6Addr) -> Seq<char> {
    match ip.mapped() {
        Some(ipv4) => seq![':', ':', 'f', 'f', 'f', 'f', ':'] + ipv4_text(ipv4),
        None => {
            let s = ip.segments();
            let start = longest_zero_run(s, 8);
            let end = start + zero_run(s, start);
            if end - start > 1 {
                segments_text(s.take(start)) + seq![':', ':'] + segments_text(s.skip(end))
            } else {
                segments_text(s)
            }
        },
    }
}

/// An address as text.
pub open spec fn ip_text(ip: IpAddr) -> Seq<char> {
    match ip {
        IpAddr::V4(ip) => ipv4_text(ip),
        IpAddr::V6(ip) => ipv6_text(ip),
    }
}

/// A host and a port with a colon between them.
pub open spec fn with_port(host: Seq<char>, port: u16) -> Seq<char> {
    host + seq![':'] + text::decimal(port as nat)
}

/// An address with its port as text. An IPv6 address stands in brackets, with its scope where it
/// has one.
pub open spec fn socket_text(addr: SocketAddr) -> Seq<char> {
    match addr {
        SocketAddr::V4 { ip, port } => with_port(ipv4_text(ip), port),
        SocketAddr::V6 { ip, port, flowinfo, scope_id } => {
            let scope = if scope_id == 0 {
                seq![]
            } else {
                seq!['%'] + text::decimal(scope_id as nat)
            };
            with_port(seq!['['] + ipv6_text(ip) + scope + seq![']'], port)
        },
    }
}

/// Appends `a.b.c.d`.
fn push_ipv4(out: &mut String, ip: Ipv4Addr)
    ensures
        final(out)@ == old(out)@ + ipv4_text(ip),
{
    text::push_decimal(out, ip.a as u128);
    out.push('.');
    text::push_decimal(out, ip.b as u128);
    out.push('.');
    text::push_decimal(out, ip.c as u128);
    out.push('.');
    text::push_decimal(out, ip.d as u128);
    proof {
        let parts = seq![
            text::decimal(ip.a as nat),
            text::decimal(ip.b as nat),
            text::decimal(ip.c as nat),
            text::decimal(ip.d as nat),
        ];
        reveal_with_fuel(text::joined, 4);
        assert(parts.skip(1).skip(1).skip(1).len() == 1);
        assert(parts.skip(1)[0] == parts[1]);
        assert(parts.skip(1).skip(1)[0] == parts[2]);
        assert(parts.skip(1).skip(1).skip(1)[0] == parts[3]);
        assert(out@ =~= old(out)@ + ipv4_text(ip));
    }
}

/// Appends segments with colons between them.
fn push_segments(out: &mut String, s: &[u16])
    ensures
        final(out)@ == old(out)@ + segments_text(s@),
    decreases s@.len(),
{
    let ghost parts = s@.map_values(|n: u16| text::hex_number(n as nat));
    if s.len() == 0 {
        assert(out@ =~= old(out)@ + segments_text(s@));
        return;
    }
    text::push_hex(out, s[0]);
    if s.len() > 1 {
        out.push(':');
        let rest = slice_subrange(s, 1, s.len());
        push_segments(out, rest);
        proof {
            assert(rest@.map_values(|n: u16| text::hex_number(n as nat)) =~= parts.skip(1));
            assert(out@ =~= old(out)@ + segments_text(s@));
        }
    } else {
        assert(out@ =~= old(out)@ + segments_text(s@));
    }
}

/// How many zero segments follow one another from index `i` on.
fn count_zeros(s: &[u16], i: usize) -> (res: usize)
    requires
        i < s@.len(),
    ensures
        res == zero_run(s@, i as int),
        i + res <= s@.len(),
    decreases s@.len() - i,
{
    if s[i] != 0 {
        0
    } else if i + 1 == s.len() {
        assert(zero_run(s@, i + 1) == 0);
        1
    } else {
        1 + count_zeros(s, i + 1)
    }
}

/// Where the first of the longest zero runs starts, and its length.
fn find_zeros(s: &[u16]) -> (res: (usize, usize))
    requires
        s@.len() == 8,
    ensures
        res.0 == longest_zero_run(s@, 8),
        res.1 == zero_run(s@, res.0 as int),
        res.0 + res.1 <= 8,
{
    let mut start: usize = 0;
    let mut length: usize = count_zeros(s, 0);
    let mut n: usize = 1;
    while n < 8
        invariant
            s@.len() == 8,
            1 <= n <= 8,
            start < 8,
            start == longest_zero_run(s@, n as int),
            length == zero_run(s@, start as int),
            start + length <= 8,
        decreases 8 - n,
    {
        let other: usize = count_zeros(s, n);
        if other > length {
            start = n;
            length = other;
        }
        n += 1;
    }
    (start, length)
}

/// Appends an IPv6 address.
fn push_ipv6(out: &mut String, ip: Ipv6Addr)
    ensures
        final(out)@ == old(out)@ + ipv6_text(ip),
{
    match ip.to_ipv4_mapped() {
        Some(ipv4) => {
            out.push(':');
            out.push(':');
            out.push('f');
            out.push('f');
            out.push('f');
            out.push('f');
            out.push(':');
            push_ipv4(out, ipv4);
            assert(out@ =~= old(out)@ + ipv6_text(ip));
        },
        None => {
            let s: [u16; 8] = [ip.s0, ip.s1, ip.s2, ip.s3, ip.s4, ip.s5, ip.s6, ip.s7];
            let s: &[u16] = &s;
            assert(s@ =~= ip.segments());
            let (start, length) = find_zeros(s);
            if length > 1 {
                push_segments(out, slice_subrange(s, 0, start));
                out.push(':');
                out.push(':');
                push_segments(out, slice_subrange(s, start + length, 8));
                proof {
                    assert(s@.subrange(0, start as int) =~= s@.take(start as int));
                    assert(s@.subrange(start + length, 8) =~= s@.skip(start + length));
                    assert(out@ =~= old(out)@ + ipv6_text(ip));
                }
            } else {
                push_segments(out, s);
            }
        },
    }
}

impl IpAddr {
    /// The address as text.
    pub fn to_text(self) -> (res: String)
        ensures
            res@ == ip_text(self),
    {
        let mut res: String = String::new();
        match self {
            IpAddr::V4(ip) => push_ipv4(&mut res, ip),
            IpAddr::V6(ip) => push_ipv6(&mut res, ip),
        }
        assert(res@ =~= ip_text(self));
        res
    }
}

/// A host and a port with a colon between them.
pub fn host_with_port(host: &str, port: u16) -> (res: String)
    ensures
        res@ == with_port(host@, port),
{
    let mut res: String = text::copy_text(host);
    res.push(':');
    text::push_decimal(&mut res, port as u128);
    assert(res@ =~= with_port(host@, port));
    res
}

/// An IPv6 host in brackets and a port with a colon between them.
pub fn bracketed_with_port(host: &str, port: u16) -> (res: String)
    ensures
        res@ == with_port(seq!['['] + host@ + seq![']'], port),
{
    let mut res: String = String::new();
    res.push('[');
    let mut res: String = text::join(res.as_str(), host);
    res.push(']');
    res.push(':');
    text::push_decimal(&mut res, port as u128);
    assert(res@ =~= with_port(seq!['['] + host@ + seq![']'], port));
    res
}

impl SocketAddr {
    /// The address with its port as text.
    pub fn to_text(self) -> (res: String)
        ensures
            res@ == socket_text(self),
    {
        let mut res: String = String::new();
        match self {
            SocketAddr::V4 { ip, port } => {
                push_ipv4(&mut res, ip);
                res.push(':');
                text::push_decimal(&mut res, port as u128);
            },
            SocketAddr::V6 { ip, port, flowinfo: _, scope_id } => {
                res.push('[');
                push_ipv6(&mut res, ip);
                if scope_id != 0 {
                    res.push('%');
                    text::push_decimal(&mut res, scope_id as u128);
                }
                res.push(']');
                res.push(':');
                text::push_decimal(&mut res, port as u128);
            },
        }
        assert(res@ =~= socket_text(self));
        res
    }
}

// ---------------------------------------------------------------------------------------------
// Reading
// ---------------------------------------------------------------------------------------------

/// The octet that a text is: one to three digits without a leading zero, at most 255.
pub open spec fn octet_of(s: Seq<char>) -> Option<u8> {
    if 1 <= s.len() <= 3 && text::all_digits(s) && (s.len() == 1 || s[0] != '0')
        && text::digits_value(s) <= 255 {
        Some(text::digits_value(s) as u8)
    } else {
        None
    }
}

/// The IPv4 address that a text is: four octets with dots between them.
pub open spec fn ipv4_of(s: Seq<char>) -> Option<Ipv4Addr> {
    let parts = text::pieces(s, '.');
    if parts.len() == 4 {
        match (octet_of(parts[0]), octet_of(parts[1]), octet_of(parts[2]), octet_of(parts[3])) {
            (Some(a), Some(b), Some(c), Some(d)) => Some(Ipv4Addr { a, b, c, d }),
            _ => None,
        }
    } else {
        None
    }
}

/// The segment that a text is: one to four hexadecimal digits.
pub open spec fn segment_of(s: Seq<char>) -> Option<u16> {
    if 1 <= s.len() <= 4 && text::all_hex(s) {
        Some(text::hex_digits_value(s) as u16)
    } else {
        None
    }
}

/// The segments that texts are. The last one may be an IPv4 address where `dotted` says so; it
/// counts as two segments.
pub open spec fn segments_of_parts(parts: Seq<Seq<char>>, dotted: bool) -> Option<Seq<u16>>
    decreases parts.len(),
{
    if parts.len() == 0 {
        Some(seq![])
    } else if parts.len() == 1 && dotted && ipv4_of(parts[0]) is Some {
        let ip = ipv4_of(parts[0])->0;
        Some(seq![crate::net::from_be16(ip.a, ip.b), crate::net::from_be16(ip.c, ip.d)])
    } else {
        match (segment_of(parts[0]), segments_of_parts(parts.skip(1), dotted)) {
            (Some(first), Some(rest)) => Some(seq![first] + rest),
            _ => None,
        }
    }
}

/// The segments that a text with colons between them is; none for no text.
pub open spec fn segments_of(s: Seq<char>, dotted: bool) -> Option<Seq<u16>> {
    if s.len() == 0 {
        Some(seq![])
    } else {
        segments_of_parts(text::pieces(s, ':'), dotted)
    }
}

/// `n` segments that are zero.
pub open spec fn zeros(n: int) -> Seq<u16> {
    Seq::new(n as nat, |i: int| 0u16)
}

/// The eight segments around a `::`, which stands for one zero segment or more.
pub open spec fn fill_zeros(head: Option<Seq<u16>>, tail: Option<Seq<u16>>) -> Option<Seq<u16>> {
    match (head, tail) {
        (Some(head), Some(tail)) => if head.len() + tail.len() <= 7 {
            Some(head + zeros(8 - head.len() - tail.len()) + tail)
        } else {
            None
        },
        _ => None,
    }
}

/// The two colons that stand for zero segments.
pub open spec fn gap() -> Seq<char> {
    seq![':', ':']
}

/// The IPv6 address that a text is: eight segments, or fewer around one `::`; the last two may
/// be written as an IPv4 address.
pub open spec fn ipv6_of(s: Seq<char>) -> Option<Ipv6Addr> {
    let segments = match text::seek(s, gap()) {
        Some(i) => fill_zeros(segments_of(s.take(i), false), segments_of(s.skip(i + 2), true)),
        None => segments_of(s, true),
    };
    match segments {
        Some(segments) => if segments.len() == 8 {
            Some(Ipv6Addr::of_segments(segments))
        } else {
            None
        },
        None => None,
    }
}

/// The address that a text is.
pub open spec fn ip_of(s: Seq<char>) -> Option<IpAddr> {
    match ipv4_of(s) {
        Some(ip) => Some(IpAddr::V4(ip)),
        None => match ipv6_of(s) {
            Some(ip) => Some(IpAddr::V6(ip)),
            None => None,
        },
    }
}

/// The number that digits without a sign are, where it is at most `max`.
pub open spec fn plain_number(s: Seq<char>, max: int) -> Option<int> {
    if s.len() > 0 && text::all_digits(s) && text::digits_value(s) <= max {
        Some(text::digits_value(s) as int)
    } else {
        None
    }
}

/// The IPv4 address and port that a text is.
pub open spec fn socket_v4_of(s: Seq<char>) -> Option<SocketAddr> {
    match text::cut(s, ':') {
        Some((host, port)) => match (ipv4_of(host), plain_number(port, 65535)) {
            (Some(ip), Some(port)) => Some(SocketAddr::V4 { ip, port: port as u16 }),
            _ => None,
        },
        None => None,
    }
}

/// The IPv6 address, scope and port that a text is: the address and its scope stand in brackets.
pub open spec fn socket_v6_of(s: Seq<char>) -> Option<SocketAddr> {
    if s.len() > 0 && s[0] == '[' {
        match text::cut(s.skip(1), ']') {
            Some((inside, behind)) => {
                let (host, scope) = match text::cut(inside, '%') {
                    Some((host, scope)) => (host, plain_number(scope, 0xffff_ffff)),
                    None => (inside, Some(0int)),
                };
                let port = if behind.len() > 0 && behind[0] == ':' {
                    plain_number(behind.skip(1), 65535)
                } else {
                    None
                };
                match (ipv6_of(host), scope, port) {
                    (Some(ip), Some(scope), Some(port)) => Some(
                        SocketAddr::V6 {
                            ip,
                            port: port as u16,
                            flowinfo: 0,
                            scope_id: scope as u32,
                        },
                    ),
                    _ => None,
                }
            },
            None => None,
        }
    } else {
        None
    }
}

/// The address and port that a text is.
pub open spec fn socket_of(s: Seq<char>) -> Option<SocketAddr> {
    match socket_v4_of(s) {
        Some(addr) => Some(addr),
        None => socket_v6_of(s),
    }
}

/// The number that digits without a sign are, where it is at most `max`.
fn parse_plain(s: &[char], max: u64) -> (res: Option<u64>)
    ensures
        match res {
            Some(n) => plain_number(s@, max as int) == Some(n as int),
            None => plain_number(s@, max as int) is None,
        },
{
    if s.len() == 0 || s[0] == '+' {
        assert(s@.len() > 0 ==> !text::is_digit(s@[0]));
        return None;
    }
    text::parse_number(s, max)
}

/// The octet that a text is.
fn parse_octet(s: &[char]) -> (res: Option<u8>)
    ensures
        res == octet_of(s@),
{
    if s.len() > 3 || (s.len() > 1 && s[0] == '0') {
        return None;
    }
    match parse_plain(s, 255) {
        Some(n) => Some(n as u8),
        None => None,
    }
}

/// The IPv4 address that a text is.
pub fn parse_ipv4(s: &[char]) -> (res: Option<Ipv4Addr>)
    ensures
        res == ipv4_of(s@),
{
    let parts = text::split(s, '.');
    assert(text::pieces(s@, '.').len() == parts@.len());
    if parts.len() != 4 {
        return None;
    }
    proof {
        let p = text::pieces(s@, '.');
        assert(p[0] == parts@[0]@);
        assert(p[1] == parts@[1]@);
        assert(p[2] == parts@[2]@);
        assert(p[3] == parts@[3]@);
    }
    match (
        parse_octet(parts[0]),
        parse_octet(parts[1]),
        parse_octet(parts[2]),
        parse_octet(parts[3]),
    ) {
        (Some(a), Some(b), Some(c), Some(d)) => Some(Ipv4Addr { a, b, c, d }),
        _ => None,
    }
}

/// The segment that a text is.
fn parse_segment(s: &[char]) -> (res: Option<u16>)
    ensures
        res == segment_of(s@),
{
    let n: usize = s.len();
    if n == 0 || n > 4 {
        return None;
    }
    let mut value: u32 = 0;
    let mut limit: u32 = 1;
    let mut i: usize = 0;
    while i < n
        invariant
            i <= n <= 4,
            n == s@.len(),
            forall|j: int| 0 <= j < i ==> text::hex_value(#[trigger] s@[j]) is Some,
            value == text::hex_digits_value(s@.take(i as int)),
            value < limit,
            i == 0 ==> limit == 1,
            i == 1 ==> limit == 0x10,
            i == 2 ==> limit == 0x100,
            i == 3 ==> limit == 0x1000,
            i == 4 ==> limit == 0x10000,
        decreases n - i,
    {
        match text::hex_digit_value(s[i]) {
            Some(digit) => {
                proof {
                    let longer = s@.take(i + 1);
                    assert(longer.drop_last() =~= s@.take(i as int));
                    assert(longer.last() == s@[i as int]);
                }
                value = value * 16 + digit as u32;
                limit = limit * 16;
            },
            None => {
                assert(text::hex_value(s@[i as int]) is None);
                return None;
            },
        }
        i += 1;
    }
    assert(s@.take(n as int) =~= s@);
    Some(value as u16)
}

/// Segments, and those that texts are behind them.
spec fn segments_before(before: Seq<u16>, rest: Option<Seq<u16>>) -> Option<Seq<u16>> {
    match rest {
        Some(rest) => Some(before + rest),
        None => None,
    }
}

/// The segments that texts are.
fn parse_parts(parts: &[&[char]], dotted: bool) -> (res: Option<Vec<u16>>)
    ensures
        match res {
            Some(segments) => segments_of_parts(text::contents(parts@), dotted) == Some(
                segments@,
            ),
            None => segments_of_parts(text::contents(parts@), dotted) is None,
        },
{
    let ghost all = text::contents(parts@);
    let mut res: Vec<u16> = Vec::new();
    let n: usize = parts.len();
    let mut i: usize = 0;
    proof {
        assert(all.skip(0) =~= all);
        assert(segments_before(res@, segments_of_parts(all, dotted)) =~= segments_of_parts(
            all,
            dotted,
        )) by {
            match segments_of_parts(all, dotted) {
                Some(rest) => {
                    assert(res@ + rest =~= rest);
                },
                None => {},
            }
        }
    }
    while i < n
        invariant
            i <= n,
            n == parts@.len(),
            all == text::contents(parts@),
            segments_before(res@, segments_of_parts(all.skip(i as int), dotted))
                == segments_of_parts(all, dotted),
        decreases n - i,
    {
        let ghost rest = all.skip(i as int);
        let ghost before = res@;
        proof {
            assert(rest[0] == parts@[i as int]@);
            assert(rest.skip(1) =~= all.skip(i + 1));
        }
        if i + 1 == n && dotted {
            if let Some(ip) = parse_ipv4(parts[i]) {
                res.push(crate::net::join_be16(ip.a, ip.b));
                res.push(crate::net::join_be16(ip.c, ip.d));
                assert(res@ =~= before + seq![
                    crate::net::from_be16(ip.a, ip.b),
                    crate::net::from_be16(ip.c, ip.d),
                ]);
                return Some(res);
            }
        }
        match parse_segment(parts[i]) {
            Some(first) => {
                res.push(first);
                proof {
                    match segments_of_parts(rest.skip(1), dotted) {
                        Some(behind) => {
                            assert(before + (seq![first] + behind) =~= res@ + behind);
                        },
                        None => {},
                    }
                }
            },
            None => {
                return None;
            },
        }
        i += 1;
    }
    proof {
        assert(all.skip(n as int).len() == 0);
        assert(res@ + Seq::<u16>::empty() =~= res@);
    }
    Some(res)
}

/// The segments that a text with colons between them is.
fn parse_segments(s: &[char], dotted: bool) -> (res: Option<Vec<u16>>)
    ensures
        match res {
            Some(segments) => segments_of(s@, dotted) == Some(segments@),
            None => segments_of(s@, dotted) is None,
        },
{
    if s.len() == 0 {
        return Some(Vec::new());
    }
    let parts = text::split(s, ':');
    parse_parts(parts.as_slice(), dotted)
}

/// The eight segments around a `::`.
fn fill(head: &Vec<u16>, tail: &Vec<u16>) -> (res: Option<Vec<u16>>)
    ensures
        match res {
            Some(segments) => fill_zeros(Some(head@), Some(tail@)) == Some(segments@),
            None => fill_zeros(Some(head@), Some(tail@)) is None,
        },
{
    let h: usize = head.len();
    let t: usize = tail.len();
    if h > 7 || t > 7 || h + t > 7 {
        return None;
    }
    let mut res: Vec<u16> = Vec::new();
    res.extend_from_slice(head.as_slice());
    let n: usize = 8 - h - t;
    let mut i: usize = 0;
    assert(res@ =~= head@ + zeros(0));
    while i < n
        invariant
            i <= n,
            res@ == head@ + zeros(i as int),
        decreases n - i,
    {
        res.push(0);
        assert(res@ =~= head@ + zeros(i + 1));
        i += 1;
    }
    res.extend_from_slice(tail.as_slice());
    assert(res@ =~= head@ + zeros(8 - h - t) + tail@);
    Some(res)
}

/// The IPv6 address that a text is.
pub fn parse_ipv6(s: &[char]) -> (res: Option<Ipv6Addr>)
    ensures
        res == ipv6_of(s@),
{
    let colons: [char; 2] = [':', ':'];
    let colons: &[char] = &colons;
    assert(colons@ =~= gap() && gap().len() == 2);
    let segments: Option<Vec<u16>> = match text::find_chars(s, colons) {
        Some(i) => {
            let n: usize = s.len();
            let head = slice_subrange(s, 0, i);
            let tail = slice_subrange(s, i + 2, n);
            proof {
                assert(head@ =~= s@.take(i as int));
                assert(tail@ =~= s@.skip(i + 2));
            }
            match (parse_segments(head, false), parse_segments(tail, true)) {
                (Some(head), Some(tail)) => fill(&head, &tail),
                _ => None,
            }
        },
        None => parse_segments(s, true),
    };
    match segments {
        Some(segments) => if segments.len() == 8 {
            Some(
                Ipv6Addr {
                    s0: segments[0],
                    s1: segments[1],
                    s2: segments[2],
                    s3: segments[3],
                    s4: segments[4],
                    s5: segments[5],
                    s6: segments[6],
                    s7: segments[7],
                },
            )
        } else {
            None
        },
        None => None,
    }
}

/// The address that a text is.
pub fn parse_ip(s: &[char]) -> (res: Option<IpAddr>)
    ensures
        res == ip_of(s@),
{
    match parse_ipv4(s) {
        Some(ip) => Some(IpAddr::V4(ip)),
        None => match parse_ipv6(s) {
            Some(ip) => Some(IpAddr::V6(ip)),
            None => None,
        },
    }
}

/// The IPv4 address and port that a text is.
fn parse_socket_v4(s: &[char]) -> (res: Option<SocketAddr>)
    ensures
        res == socket_v4_of(s@),
{
    match text::split_once(s, ':') {
        Some((host, port)) => match (parse_ipv4(host), parse_plain(port, 65535)) {
            (Some(ip), Some(port)) => Some(SocketAddr::V4 { ip, port: port as u16 }),
            _ => None,
        },
        None => None,
    }
}

/// The IPv6 address, scope and port that a text is.
fn parse_socket_v6(s: &[char]) -> (res: Option<SocketAddr>)
    ensures
        res == socket_v6_of(s@),
{
    if s.len() == 0 || s[0] != '[' {
        return None;
    }
    let rest = slice_subrange(s, 1, s.len());
    assert(rest@ =~= s@.skip(1));
    match text::split_once(rest, ']') {
        Some((inside, behind)) => {
            let (host, scope) = match text::split_once(inside, '%') {
                Some((host, scope)) => (host, parse_plain(scope, 0xffff_ffff)),
                None => (inside, Some(0u64)),
            };
            let port: Option<u64> = if behind.len() > 0 && behind[0] == ':' {
                let digits = slice_subrange(behind, 1, behind.len());
                assert(digits@ =~= behind@.skip(1));
                parse_plain(digits, 65535)
            } else {
                None
            };
            match (parse_ipv6(host), scope, port) {
                (Some(ip), Some(scope), Some(port)) => Some(
                    SocketAddr::V6 { ip, port: port as u16, flowinfo: 0, scope_id: scope as u32 },
                ),
                _ => None,
            }
        },
        None => None,
    }
}

/// The address and port that a text is.
pub fn parse_socket(s: &[char]) -> (res: Option<SocketAddr>)
    ensures
        res == socket_of(s@),
{
    match parse_socket_v4(s) {
        Some(addr) => Some(addr),
        None => parse_socket_v6(s),
    }
}

// ---------------------------------------------------------------------------------------------
// What is written reads back
// ---------------------------------------------------------------------------------------------

proof fn lemma_octet(n: u8)
    ensures
        octet_of(text::decimal(n as nat)) == Some(n),
{
    text::lemma_decimal(n as nat);
    reveal_with_fuel(text::decimal, 3);
}

proof fn lemma_not_in_digits(s: Seq<char>, c: char)
    requires
        text::all_digits(s),
        !text::is_digit(c),
    ensures
        !s.contains(c),
{
    if s.contains(c) {
        let k = choose|k: int| 0 <= k < s.len() && s[k] == c;
        assert(text::is_digit(s[k]));
    }
}

proof fn lemma_joined4(p: Seq<Seq<char>>, c: char)
    requires
        p.len() == 4,
    ensures
        text::joined(p, c) == p[0] + seq![c] + (p[1] + seq![c] + (p[2] + seq![c] + p[3])),
{
    reveal_with_fuel(text::joined, 4);
    assert(p.skip(1).skip(1).skip(1).len() == 1);
    assert(p.skip(1)[0] == p[1]);
    assert(p.skip(1).skip(1)[0] == p[2]);
    assert(p.skip(1).skip(1).skip(1)[0] == p[3]);
}

proof fn lemma_ipv4_parts(ip: Ipv4Addr, first: Seq<char>, parts: Seq<Seq<char>>)
    requires
        parts == seq![
            first,
            text::decimal(ip.b as nat),
            text::decimal(ip.c as nat),
            text::decimal(ip.d as nat),
        ],
        !first.contains('.'),
    ensures
        text::pieces(text::joined(parts, '.'), '.') == parts,
{
    text::lemma_decimal(ip.b as nat);
    text::lemma_decimal(ip.c as nat);
    text::lemma_decimal(ip.d as nat);
    lemma_not_in_digits(text::decimal(ip.b as nat), '.');
    lemma_not_in_digits(text::decimal(ip.c as nat), '.');
    lemma_not_in_digits(text::decimal(ip.d as nat), '.');
    text::lemma_pieces_of_joined(parts, '.');
}

/// An IPv4 address reads back from its text.
pub proof fn law_ipv4_text_reads_back(ip: Ipv4Addr)
    ensures
        ipv4_of(ipv4_text(ip)) == Some(ip),
{
    let parts = seq![
        text::decimal(ip.a as nat),
        text::decimal(ip.b as nat),
        text::decimal(ip.c as nat),
        text::decimal(ip.d as nat),
    ];
    text::lemma_decimal(ip.a as nat);
    lemma_not_in_digits(text::decimal(ip.a as nat), '.');
    lemma_ipv4_parts(ip, parts[0], parts);
    lemma_octet(ip.a);
    lemma_octet(ip.b);
    lemma_octet(ip.c);
    lemma_octet(ip.d);
}

/// An IPv4 address has one text: what is read as an address is its text.
pub proof fn law_ipv4_has_one_text(s: Seq<char>)
    ensures
        ipv4_of(s) matches Some(ip) ==> ipv4_text(ip) == s,
{
    if let Some(ip) = ipv4_of(s) {
        let parts = text::pieces(s, '.');
        text::lemma_joined_pieces(s, '.');
        text::lemma_decimal_of_digits(parts[0]);
        text::lemma_decimal_of_digits(parts[1]);
        text::lemma_decimal_of_digits(parts[2]);
        text::lemma_decimal_of_digits(parts[3]);
        assert(parts =~= seq![
            text::decimal(ip.a as nat),
            text::decimal(ip.b as nat),
            text::decimal(ip.c as nat),
            text::decimal(ip.d as nat),
        ]);
    }
}

/// The characters of an IPv4 address are digits and dots.
proof fn lemma_ipv4_chars(ip: Ipv4Addr)
    ensures
        ipv4_text(ip).len() > 0,
        forall|i: int|
            0 <= i < ipv4_text(ip).len() ==> text::is_digit(#[trigger] ipv4_text(ip)[i])
                || ipv4_text(ip)[i] == '.',
{
    let p = seq![
        text::decimal(ip.a as nat),
        text::decimal(ip.b as nat),
        text::decimal(ip.c as nat),
        text::decimal(ip.d as nat),
    ];
    text::lemma_decimal(ip.a as nat);
    text::lemma_decimal(ip.b as nat);
    text::lemma_decimal(ip.c as nat);
    text::lemma_decimal(ip.d as nat);
    lemma_joined4(p, '.');
    let t = ipv4_text(ip);
    let n0 = p[0].len() as int;
    let n1 = n0 + 1 + p[1].len();
    let n2 = n1 + 1 + p[2].len();
    assert forall|i: int| 0 <= i < t.len() implies text::is_digit(#[trigger] t[i]) || t[i]
        == '.' by {
        if i < n0 {
            assert(t[i] == p[0][i]);
        } else if i == n0 {
            assert(t[i] == '.');
        } else if i < n1 {
            assert(t[i] == p[1][i - n0 - 1]);
        } else if i == n1 {
            assert(t[i] == '.');
        } else if i < n2 {
            assert(t[i] == p[2][i - n1 - 1]);
        } else if i == n2 {
            assert(t[i] == '.');
        } else {
            assert(t[i] == p[3][i - n2 - 1]);
        }
    }
}

/// The texts of segments: not empty, and of hexadecimal digits.
spec fn hex_parts(s: Seq<u16>) -> Seq<Seq<char>> {
    s.map_values(|n: u16| text::hex_number(n as nat))
}

/// Whether no second colon follows one at index `j`.
spec fn one_colon(t: Seq<char>, j: int) -> bool {
    !(t[j] == ':' && t[j + 1] == ':')
}

/// Joined segments start and end with a digit, have no two colons side by side, and hold digits
/// and colons alone.
proof fn lemma_segments_text_shape(s: Seq<u16>)
    requires
        s.len() > 0,
    ensures
        segments_text(s).len() > 0,
        segments_text(s)[0] != ':',
        segments_text(s).last() != ':',
        forall|j: int|
            0 <= j < segments_text(s).len() - 1 ==> #[trigger] one_colon(segments_text(s), j),
        forall|j: int|
            0 <= j < segments_text(s).len() ==> #[trigger] segments_text(s)[j] == ':'
                || text::hex_value(segments_text(s)[j]) is Some,
    decreases s.len(),
{
    let parts = hex_parts(s);
    let first = parts[0];
    let t = segments_text(s);
    text::lemma_hex_number(s[0] as nat);
    assert(first == text::hex_number(s[0] as nat));
    assert forall|j: int| 0 <= j < first.len() implies #[trigger] first[j] != ':' by {
        assert(text::hex_value(first[j]) is Some);
    }
    if s.len() == 1 {
        assert(t == first);
        assert forall|j: int| 0 <= j < t.len() - 1 implies #[trigger] one_colon(t, j) by {
            assert(t[j] == first[j]);
        }
    } else {
        let rest = s.skip(1);
        lemma_segments_text_shape(rest);
        let u = segments_text(rest);
        assert(hex_parts(rest) =~= parts.skip(1));
        let k = first.len() as int;
        assert(t == first + seq![':'] + u);
        assert(t[0] == first[0]);
        assert(t.last() == u.last());
        assert forall|j: int| 0 <= j < t.len() - 1 implies #[trigger] one_colon(t, j) by {
            if j < k {
                assert(t[j] == first[j]);
            } else if j == k {
                assert(t[j + 1] == u[0]);
            } else {
                assert(t[j] == u[j - k - 1]);
                assert(t[j + 1] == u[j - k]);
                assert(one_colon(u, j - k - 1));
            }
        }
        assert forall|j: int| 0 <= j < t.len() implies #[trigger] t[j] == ':' || text::hex_value(
            t[j],
        ) is Some by {
            if j < k {
                assert(t[j] == first[j]);
            } else if j > k {
                assert(t[j] == u[j - k - 1]);
            }
        }
    }
}

proof fn lemma_no_dots_no_ipv4(s: Seq<char>)
    requires
        !s.contains('.'),
    ensures
        ipv4_of(s) is None,
{
    text::lemma_position_bounds(s, '.');
}

proof fn lemma_parts_of_segments(s: Seq<u16>, dotted: bool)
    ensures
        segments_of_parts(hex_parts(s), dotted) == Some(s),
    decreases s.len(),
{
    let parts = hex_parts(s);
    if s.len() == 0 {
        assert(s =~= seq![]);
    } else {
        text::lemma_hex_number(s[0] as nat);
        assert(parts[0] == text::hex_number(s[0] as nat));
        assert(!parts[0].contains('.')) by {
            if parts[0].contains('.') {
                let k = choose|k: int| 0 <= k < parts[0].len() && parts[0][k] == '.';
                assert(text::hex_value(parts[0][k]) is Some);
            }
        }
        lemma_no_dots_no_ipv4(parts[0]);
        lemma_parts_of_segments(s.skip(1), dotted);
        assert(hex_parts(s.skip(1)) =~= parts.skip(1));
        assert(seq![s[0]] + s.skip(1) =~= s);
    }
}

proof fn lemma_segments_read_back(s: Seq<u16>, dotted: bool)
    ensures
        segments_of(segments_text(s), dotted) == Some(s),
{
    if s.len() == 0 {
        assert(s =~= seq![]);
    } else {
        let parts = hex_parts(s);
        lemma_segments_text_shape(s);
        assert forall|i: int| 0 <= i < parts.len() implies !(#[trigger] parts[i]).contains(':') by {
            text::lemma_hex_number(s[i] as nat);
            if parts[i].contains(':') {
                let k = choose|k: int| 0 <= k < parts[i].len() && parts[i][k] == ':';
                assert(text::hex_value(parts[i][k]) is Some);
            }
        }
        text::lemma_pieces_of_joined(parts, ':');
        lemma_parts_of_segments(s, dotted);
    }
}

/// A run of zeros is made of zeros and ends within the segments.
proof fn lemma_zero_run(s: Seq<u16>, i: int)
    requires
        0 <= i <= s.len(),
    ensures
        0 <= zero_run(s, i) <= s.len() - i,
        forall|j: int| i <= j < i + zero_run(s, i) ==> s[j] == 0,
    decreases s.len() - i,
{
    if i < s.len() && s[i] == 0 {
        lemma_zero_run(s, i + 1);
    }
}

proof fn lemma_longest_zero_run(s: Seq<u16>, n: int)
    requires
        0 < n <= s.len(),
    ensures
        0 <= longest_zero_run(s, n) < n,
    decreases n,
{
    if n > 1 {
        lemma_longest_zero_run(s, n - 1);
    }
}

/// `stands_at` for two colons, by the two characters.
proof fn lemma_gap_at(s: Seq<char>, j: int)
    ensures
        text::stands_at(s, gap(), j) <==> 0 <= j < s.len() - 1 && s[j] == ':' && s[j + 1] == ':',
{
    if 0 <= j < s.len() - 1 {
        let window = s.subrange(j, j + 2);
        assert(window[0] == s[j] && window[1] == s[j + 1]);
        if s[j] == ':' && s[j + 1] == ':' {
            assert(window =~= gap());
        }
    }
}

proof fn lemma_mapped_reads_back(ip: Ipv6Addr)
    requires
        ip.mapped() is Some,
    ensures
        ipv6_of(ipv6_text(ip)) == Some(ip),
        ipv4_of(ipv6_text(ip)) is None,
{
    let v4 = ip.mapped()->0;
    let t = ipv6_text(ip);
    let dotted = ipv4_text(v4);
    let ffff = seq!['f', 'f', 'f', 'f'];
    lemma_ipv4_chars(v4);
    law_ipv4_text_reads_back(v4);
    // The gap stands at the very start.
    text::lemma_seek(t, gap());
    lemma_gap_at(t, 0);
    assert(text::seek(t, gap()) == Some(0int));
    assert(t.take(0).len() == 0);
    // What follows is one segment and the dotted part.
    let parts = seq![ffff, dotted];
    let tail = t.skip(2);
    reveal_with_fuel(text::joined, 2);
    assert(parts.skip(1)[0] == dotted);
    assert(text::joined(parts, ':') == ffff + seq![':'] + dotted);
    assert(tail =~= text::joined(parts, ':'));
    assert(!dotted.contains(':')) by {
        if dotted.contains(':') {
            let k = choose|k: int| 0 <= k < dotted.len() && dotted[k] == ':';
            assert(text::is_digit(dotted[k]) || dotted[k] == '.');
        }
    }
    assert(!ffff.contains(':'));
    text::lemma_pieces_of_joined(parts, ':');
    reveal_with_fuel(text::hex_digits_value, 5);
    assert(ffff.drop_last() =~= seq!['f', 'f', 'f']);
    assert(seq!['f', 'f', 'f'].drop_last() =~= seq!['f', 'f']);
    assert(seq!['f', 'f'].drop_last() =~= seq!['f']);
    assert(seq!['f'].drop_last() =~= seq![]);
    assert(segment_of(ffff) == Some(0xffffu16));
    crate::net::lemma_be16(ip.s6);
    crate::net::lemma_be16(ip.s7);
    let pair = seq![ip.s6, ip.s7];
    assert(segments_of_parts(parts.skip(1), true) == Some(pair));
    assert(segments_of_parts(parts, true) == Some(seq![0xffffu16] + pair));
    let all = Seq::<u16>::empty() + zeros(5) + (seq![0xffffu16] + pair);
    let have = ip.segments();
    assert(have[0] == 0 && have[1] == 0 && have[2] == 0 && have[3] == 0 && have[4] == 0);
    assert(Ipv6Addr::of_segments(all) == ip);
    // The part before the first dot holds a colon.
    let first = seq![':', ':', 'f', 'f', 'f', 'f', ':'] + text::decimal(v4.a as nat);
    let quarters = seq![
        first,
        text::decimal(v4.b as nat),
        text::decimal(v4.c as nat),
        text::decimal(v4.d as nat),
    ];
    text::lemma_decimal(v4.a as nat);
    lemma_not_in_digits(text::decimal(v4.a as nat), '.');
    assert(!first.contains('.')) by {
        if first.contains('.') {
            let k = choose|k: int| 0 <= k < first.len() && first[k] == '.';
            assert(k >= 7);
            assert(text::decimal(v4.a as nat)[k - 7] == '.');
        }
    }
    lemma_ipv4_parts(v4, first, quarters);
    lemma_joined4(quarters, '.');
    lemma_joined4(
        seq![
            text::decimal(v4.a as nat),
            text::decimal(v4.b as nat),
            text::decimal(v4.c as nat),
            text::decimal(v4.d as nat),
        ],
        '.',
    );
    assert(t =~= text::joined(quarters, '.'));
    assert(!text::is_digit(first[0]));
    assert(octet_of(first) is None);
}

/// Where a gap stands behind a text that holds none and does not end with a colon.
proof fn lemma_gap_behind(a: Seq<char>, b: Seq<char>)
    requires
        a.len() > 0 ==> a.last() != ':',
        forall|j: int| 0 <= j < a.len() - 1 ==> #[trigger] one_colon(a, j),
    ensures
        text::seek(a + gap() + b, gap()) == Some(a.len() as int),
{
    let t = a + gap() + b;
    let k = a.len() as int;
    assert(text::stands_at(t, gap(), k)) by {
        assert(t.subrange(k, k + gap().len()) =~= gap());
    }
    assert forall|j: int| 0 <= j < k implies !text::stands_at(t, gap(), j) by {
        assert(t[j] == a[j]);
        if j + 1 < k {
            assert(t[j + 1] == a[j + 1]);
            assert(one_colon(a, j));
        }
        lemma_gap_at(t, j);
    }
    text::lemma_seek_is(t, gap(), k);
}

/// There is no dot in a text of segments.
proof fn lemma_no_dot(s: Seq<u16>)
    ensures
        !segments_text(s).contains('.'),
{
    let t = segments_text(s);
    if t.contains('.') {
        lemma_segments_text_shape(s);
        let i = choose|i: int| 0 <= i < t.len() && t[i] == '.';
        assert(t[i] == ':' || text::hex_value(t[i]) is Some);
    }
}

/// A text of segments around a gap: where the gap stands, and that there is no dot.
proof fn lemma_gap_between(head: Seq<u16>, tail: Seq<u16>, t: Seq<char>)
    requires
        t == segments_text(head) + gap() + segments_text(tail),
    ensures
        text::seek(t, gap()) == Some(segments_text(head).len() as int),
        t.take(segments_text(head).len() as int) == segments_text(head),
        t.skip(segments_text(head).len() as int + 2) == segments_text(tail),
        !t.contains('.'),
{
    let a = segments_text(head);
    let b = segments_text(tail);
    let k = a.len() as int;
    if head.len() > 0 {
        lemma_segments_text_shape(head);
    }
    lemma_gap_behind(a, b);
    assert(t.take(k) =~= a);
    assert(t.skip(k + 2) =~= b);
    lemma_no_dot(head);
    lemma_no_dot(tail);
    assert(!t.contains('.')) by {
        if t.contains('.') {
            let i = choose|i: int| 0 <= i < t.len() && t[i] == '.';
            if i < k {
                assert(a[i] == '.');
            } else {
                assert(i >= k + 2);
                assert(b[i - k - 2] == '.');
            }
        }
    }
}

/// A text of segments without a gap: none is found, and there is no dot.
proof fn lemma_no_gap(s: Seq<u16>)
    requires
        s.len() > 0,
    ensures
        text::seek(segments_text(s), gap()) is None,
        !segments_text(s).contains('.'),
{
    let t = segments_text(s);
    lemma_segments_text_shape(s);
    text::lemma_seek(t, gap());
    assert forall|j: int| !text::stands_at(t, gap(), j) by {
        lemma_gap_at(t, j);
        if 0 <= j < t.len() - 1 {
            assert(one_colon(t, j));
        }
    }
    if t.contains('.') {
        let i = choose|i: int| 0 <= i < t.len() && t[i] == '.';
        assert(t[i] == ':' || text::hex_value(t[i]) is Some);
    }
}

/// An IPv6 address reads back from its text.
pub proof fn law_ipv6_text_reads_back(ip: Ipv6Addr)
    ensures
        ipv6_of(ipv6_text(ip)) == Some(ip),
        ipv4_of(ipv6_text(ip)) is None,
{
    if ip.mapped() is Some {
        lemma_mapped_reads_back(ip);
    } else {
        let s = ip.segments();
        let t = ipv6_text(ip);
        let start = longest_zero_run(s, 8);
        lemma_longest_zero_run(s, 8);
        lemma_zero_run(s, start);
        let end = start + zero_run(s, start);
        if end - start > 1 {
            let head = s.take(start);
            let tail = s.skip(end);
            lemma_gap_between(head, tail, t);
            lemma_segments_read_back(head, false);
            lemma_segments_read_back(tail, true);
            assert(head + zeros(8 - head.len() - tail.len()) + tail =~= s);
        } else {
            lemma_no_gap(s);
            lemma_segments_read_back(s, true);
        }
        lemma_no_dots_no_ipv4(t);
        assert(Ipv6Addr::of_segments(s) == ip);
    }
}

/// An address reads back from its text.
pub proof fn law_ip_text_reads_back(ip: IpAddr)
    ensures
        ip_of(ip_text(ip)) == Some(ip),
{
    match ip {
        IpAddr::V4(v4) => law_ipv4_text_reads_back(v4),
        IpAddr::V6(v6) => law_ipv6_text_reads_back(v6),
    }
}

/// The characters of an IPv6 address are hexadecimal digits, colons and dots.
proof fn lemma_ipv6_chars(ip: Ipv6Addr, c: char)
    requires
        c == ']' || c == '%',
    ensures
        !ipv6_text(ip).contains(c),
{
    let t = ipv6_text(ip);
    if t.contains(c) {
        let i = choose|i: int| 0 <= i < t.len() && t[i] == c;
        match ip.mapped() {
            Some(v4) => {
                lemma_ipv4_chars(v4);
                if i >= 7 {
                    assert(ipv4_text(v4)[i - 7] == c);
                }
            },
            None => {
                let s = ip.segments();
                let start = longest_zero_run(s, 8);
                lemma_longest_zero_run(s, 8);
                lemma_zero_run(s, start);
                let end = start + zero_run(s, start);
                if end - start > 1 {
                    let head = s.take(start);
                    let tail = s.skip(end);
                    let a = segments_text(head);
                    let b = segments_text(tail);
                    if head.len() > 0 {
                        lemma_segments_text_shape(head);
                    }
                    if tail.len() > 0 {
                        lemma_segments_text_shape(tail);
                    }
                    if i < a.len() {
                        assert(a[i] == c);
                    } else if i >= a.len() + 2 {
                        assert(b[i - a.len() - 2] == c);
                    }
                } else {
                    lemma_segments_text_shape(s);
                }
            },
        }
    }
}

proof fn lemma_plain_number_of_decimal(n: nat, max: int)
    requires
        n <= max,
    ensures
        plain_number(text::decimal(n), max) == Some(n as int),
{
    text::lemma_decimal(n);
}

/// No IPv4 address and port starts with a bracket.
proof fn lemma_bracket_is_no_ipv4(t: Seq<char>)
    requires
        t.len() > 0,
        t[0] == '[',
    ensures
        socket_v4_of(t) is None,
{
    text::lemma_position_bounds(t, ':');
    let p = text::position(t, ':');
    if 0 < p < t.len() {
        let before = t.take(p);
        text::lemma_position_bounds(before, '.');
        assert(before[0] == '[');
        let first = text::pieces(before, '.')[0];
        assert(first.len() > 0 && first[0] == '[');
        assert(!text::is_digit(first[0]));
        assert(ipv4_of(before) is None);
    }
}

/// The scope part of an IPv6 address.
spec fn scope_text(scope_id: u32) -> Seq<char> {
    if scope_id == 0 {
        seq![]
    } else {
        seq!['%'] + text::decimal(scope_id as nat)
    }
}

/// How an IPv6 address is parted from its scope.
proof fn lemma_scope(host: Seq<char>, scope_id: u32)
    requires
        !host.contains('%'),
    ensures
        match text::cut(host + scope_text(scope_id), '%') {
            Some((h, s)) => scope_id != 0 && h == host && plain_number(s, 0xffff_ffff) == Some(
                scope_id as int,
            ),
            None => scope_id == 0 && host + scope_text(scope_id) == host,
        },
{
    let inside = host + scope_text(scope_id);
    if scope_id == 0 {
        assert(inside =~= host);
        text::lemma_position_bounds(inside, '%');
    } else {
        let m = host.len() as int;
        assert forall|j: int| 0 <= j < m implies inside[j] != '%' by {
            assert(inside[j] == host[j]);
        }
        assert(inside[m] == '%');
        text::lemma_position(inside, '%', m);
        assert(inside.take(m) =~= host);
        assert(inside.skip(m + 1) =~= text::decimal(scope_id as nat));
        lemma_plain_number_of_decimal(scope_id as nat, 0xffff_ffff);
    }
}

/// Where the closing bracket stands.
proof fn lemma_closing_bracket(host: Seq<char>, scope_id: u32, behind: Seq<char>)
    requires
        !host.contains(']'),
    ensures
        text::cut(host + scope_text(scope_id) + seq![']'] + behind, ']') == Some(
            (host + scope_text(scope_id), behind),
        ),
{
    let inside = host + scope_text(scope_id);
    let rest = inside + seq![']'] + behind;
    let k = inside.len() as int;
    text::lemma_decimal(scope_id as nat);
    assert forall|j: int| 0 <= j < k implies rest[j] != ']' by {
        assert(rest[j] == inside[j]);
        if j < host.len() {
            assert(host[j] == rest[j]);
        } else if j > host.len() {
            assert(rest[j] == text::decimal(scope_id as nat)[j - host.len() - 1]);
            assert(text::is_digit(rest[j]));
        }
    }
    assert(rest[k] == ']');
    text::lemma_position(rest, ']', k);
    assert(rest.take(k) =~= inside);
    assert(rest.skip(k + 1) =~= behind);
}

proof fn lemma_socket_v4_reads_back(ip: Ipv4Addr, port: u16)
    ensures
        socket_v4_of(with_port(ipv4_text(ip), port)) == Some(SocketAddr::V4 { ip, port }),
{
    let host = ipv4_text(ip);
    let t = with_port(host, port);
    lemma_ipv4_chars(ip);
    law_ipv4_text_reads_back(ip);
    lemma_plain_number_of_decimal(port as nat, 65535);
    let k = host.len() as int;
    assert forall|j: int| 0 <= j < k implies t[j] != ':' by {
        assert(t[j] == host[j]);
    }
    text::lemma_position(t, ':', k);
    assert(t.take(k) =~= host);
    assert(t.skip(k + 1) =~= text::decimal(port as nat));
}

/// An address with its port reads back from its text, where it has no flow label.
pub proof fn law_socket_text_reads_back(addr: SocketAddr)
    requires
        addr matches SocketAddr::V6 { flowinfo, .. } ==> flowinfo == 0,
    ensures
        socket_of(socket_text(addr)) == Some(addr),
{
    let t = socket_text(addr);
    match addr {
        SocketAddr::V4 { ip, port } => {
            lemma_socket_v4_reads_back(ip, port);
        },
        SocketAddr::V6 { ip, port, flowinfo, scope_id } => {
            let host = ipv6_text(ip);
            let behind = seq![':'] + text::decimal(port as nat);
            lemma_ipv6_chars(ip, ']');
            lemma_ipv6_chars(ip, '%');
            law_ipv6_text_reads_back(ip);
            lemma_plain_number_of_decimal(port as nat, 65535);
            assert(t[0] == '[');
            lemma_bracket_is_no_ipv4(t);
            assert(t.skip(1) =~= host + scope_text(scope_id) + seq![']'] + behind);
            lemma_closing_bracket(host, scope_id, behind);
            lemma_scope(host, scope_id);
            assert(behind.skip(1) =~= text::decimal(port as nat));
        },
    }
}

/// An IPv4 address is written as its four octets in base ten with dots between them; with a port,
/// a colon and the port stand behind it.
pub proof fn law_ipv4_text_form(ip: Ipv4Addr, port: u16)
    ensures
        ipv4_text(ip) == text::decimal(ip.a as nat) + seq!['.'] + text::decimal(ip.b as nat) + seq![
            '.',
        ] + text::decimal(ip.c as nat) + seq!['.'] + text::decimal(ip.d as nat),
        socket_text(SocketAddr::V4 { ip, port }) == ipv4_text(ip) + seq![':'] + text::decimal(
            port as nat,
        ),
{
    let p = seq![
        text::decimal(ip.a as nat),
        text::decimal(ip.b as nat),
        text::decimal(ip.c as nat),
        text::decimal(ip.d as nat),
    ];
    lemma_joined4(p, '.');
    assert(ipv4_text(ip) =~= text::decimal(ip.a as nat) + seq!['.'] + text::decimal(ip.b as nat)
        + seq!['.'] + text::decimal(ip.c as nat) + seq!['.'] + text::decimal(ip.d as nat));
}

} // verus!
