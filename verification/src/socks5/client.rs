//! A SOCKS client from its first byte to what is done with its request.
use vstd::prelude::*;
use vstd::slice::{slice_subrange, slice_to_vec};

use crate::address_text;
use crate::net::{IpAddr, Ipv4Addr, SocketAddr};
use crate::progress::Progress;
use crate::security::{self, SecurityManager, SecurityView};
use crate::socks5::{self, HandshakeError};
use crate::text;

verus! {

/// Where a client stands.
#[derive(Clone, Copy, Debug, PartialEq, Eq, Structural)]
pub enum Phase {
    /// It greets; this many bytes were answered.
    Greeting { sent: usize },
    /// It was let in; its request starts behind this many bytes.
    Request { start: usize },
    /// It is served or refused.
    Over,
}

/// What is to be done with a client next.
#[derive(Debug)]
pub enum Next {
    /// Wait for this many more bytes.
    Read(usize),
    /// Close the connection.
    Close,
    /// Connect it to a target.
    Connect(String),
    /// Relay its datagrams; it named this address.
    UdpAssociate(String),
}

/// What is sent to a client, and what is to be done then.
#[derive(Debug)]
pub struct Step {
    pub write: Vec<u8>,
    pub next: Next,
}

/// A client's connection.
#[derive(Debug)]
pub struct SocksClient {
    /// The address that it came from, where that is known.
    pub peer: Option<IpAddr>,
    pub user: Option<String>,
    pub password: Option<String>,
    /// Whether the port has no room for it.
    pub limit_reached: bool,
    pub phase: Phase,
}

/// What a client's bytes say of its address.
#[derive(Clone, Copy, Debug, PartialEq, Eq, Structural)]
pub enum Report {
    Nothing,
    /// It sent wrong credentials.
    Failure,
    /// It was let in.
    Success,
}

/// `Next`, with texts by their characters.
pub enum NextView {
    Read(usize),
    Close,
    Connect(Seq<char>),
    UdpAssociate(Seq<char>),
}

impl Next {
    /// The texts by their characters.
    pub open spec fn view(&self) -> NextView {
        match self {
            Next::Read(n) => NextView::Read(*n),
            Next::Close => NextView::Close,
            Next::Connect(target) => NextView::Connect(target@),
            Next::UdpAssociate(target) => NextView::UdpAssociate(target@),
        }
    }
}

/// `0.0.0.0:0`.
pub open spec fn nowhere() -> SocketAddr {
    SocketAddr::V4 { ip: Ipv4Addr { a: 0, b: 0, c: 0, d: 0 }, port: 0 }
}

/// `0.0.0.0:0`.
fn no_address() -> (res: SocketAddr)
    ensures
        res == nowhere(),
{
    SocketAddr::V4 { ip: Ipv4Addr { a: 0, b: 0, c: 0, d: 0 }, port: 0 }
}

/// What is done with the request that bytes are: it is refused where there is no room, carried
/// out where it is one of the two that are known, and refused as unknown elsewhere.
pub open spec fn request_outcome(b: Seq<u8>, limit_reached: bool) -> (Seq<u8>, NextView) {
    match socks5::packet_of(b) {
        Progress::More(n) => (seq![], NextView::Read(n)),
        Progress::Failed(_) => (seq![], NextView::Close),
        Progress::Done { value: (command, target), used } => if limit_reached {
            (socks5::reply_bytes(0x02, nowhere()), NextView::Close)
        } else if command == socks5::CMD_CONNECT {
            (seq![], NextView::Connect(target))
        } else if command == socks5::CMD_UDP_ASSOCIATE {
            (seq![], NextView::UdpAssociate(target))
        } else {
            (socks5::reply_bytes(0x07, nowhere()), NextView::Close)
        },
    }
}

/// Where a client stands once its request was looked at.
pub open spec fn request_phase(next: NextView, start: usize) -> Phase {
    if next is Read {
        Phase::Request { start }
    } else {
        Phase::Over
    }
}

/// What lies behind the first `n` items.
pub open spec fn behind<A>(s: Seq<A>, n: int) -> Seq<A> {
    if n <= s.len() {
        s.skip(n)
    } else {
        seq![]
    }
}

/// What all the bytes that a client has sent amount to: where it stands, what is sent to it,
/// what is to be done next, and what is noted of its address.
pub open spec fn client_outcome(
    phase: Phase,
    b: Seq<u8>,
    user: Option<Seq<char>>,
    password: Option<Seq<char>>,
    limit_reached: bool,
) -> (Phase, Seq<u8>, NextView, Report) {
    match phase {
        Phase::Over => (Phase::Over, seq![], NextView::Close, Report::Nothing),
        Phase::Request { start } => {
            let (write, next) = request_outcome(behind(b, start as int), limit_reached);
            (request_phase(next, start), write, next, Report::Nothing)
        },
        Phase::Greeting { sent } => {
            let (reply, outcome) = socks5::greeting_outcome(b, user, password);
            let unsent = behind(reply, sent as int);
            match outcome {
                Progress::More(n) => (
                    Phase::Greeting {
                        sent: if sent < reply.len() {
                            reply.len() as usize
                        } else {
                            sent
                        },
                    },
                    unsent,
                    NextView::Read(n),
                    Report::Nothing,
                ),
                Progress::Failed(error) => (
                    Phase::Over,
                    unsent,
                    NextView::Close,
                    if error == HandshakeError::Credentials {
                        Report::Failure
                    } else {
                        Report::Nothing
                    },
                ),
                Progress::Done { value, used } => {
                    let (write, next) = request_outcome(behind(b, used as int), limit_reached);
                    (request_phase(next, used), unsent + write, next, Report::Success)
                },
            }
        },
    }
}

/// What is wrong with a request that is no packet.
pub open spec fn request_complaint(b: Seq<u8>) -> Option<Seq<char>> {
    if socks5::packet_of(b) is Failed {
        Some("Read request failed"@)
    } else {
        None
    }
}

/// What is wrong with the bytes of a client that stood at `phase`, in words: its greeting or its
/// request. A client that is refused for another reason did nothing wrong.
pub open spec fn complaint_of(
    phase: Phase,
    b: Seq<u8>,
    user: Option<Seq<char>>,
    password: Option<Seq<char>>,
) -> Option<Seq<char>> {
    match phase {
        Phase::Over => None,
        Phase::Request { start } => request_complaint(behind(b, start as int)),
        Phase::Greeting { sent } => match socks5::greeting_outcome(b, user, password).1 {
            Progress::More(_) => None,
            Progress::Failed(error) => Some(socks5::refusal_words(error)),
            Progress::Done { value, used } => request_complaint(behind(b, used as int)),
        },
    }
}

/// What is known of bans after a note on an address. Nothing is noted of an unknown address.
pub open spec fn noted(
    known: SecurityView,
    report: Report,
    peer: Option<IpAddr>,
    now: u64,
) -> SecurityView {
    match (report, peer) {
        (Report::Failure, Some(ip)) => security::failed(known, address_text::ip_text(ip), now),
        (Report::Success, Some(ip)) => security::succeeded(known, address_text::ip_text(ip)),
        _ => known,
    }
}

/// Notes how a login from an address went.
pub fn note(sm: &mut SecurityManager, report: Report, peer: Option<IpAddr>, now: u64)
    requires
        old(sm).wf(),
        now + security::BAN_TTL_SECS <= u64::MAX,
    ensures
        final(sm).wf(),
        final(sm)@ == noted(old(sm)@, report, peer, now),
{
    match (report, peer) {
        (Report::Failure, Some(ip)) => security::report_failure(sm, ip.to_text().as_str(), now),
        (Report::Success, Some(ip)) => security::report_success(sm, ip.to_text().as_str()),
        _ => {},
    }
}

/// Whether a client may come, by the address that it comes from, where that is known.
pub open spec fn may_come(known: SecurityView, peer: Option<IpAddr>, now: u64) -> bool {
    match peer {
        Some(ip) => !security::banned(known, address_text::ip_text(ip), now),
        None => true,
    }
}

/// Whether a connection from an address is taken: it is not where the address is banned.
pub fn admits(sm: &mut SecurityManager, peer: Option<IpAddr>, now: u64) -> (res: bool)
    requires
        old(sm).wf(),
    ensures
        final(sm).wf(),
        res == may_come(old(sm)@, peer, now),
        match peer {
            Some(ip) => {
                &&& res == !security::banned(old(sm)@, address_text::ip_text(ip), now)
                &&& final(sm)@ == security::refreshed(old(sm)@, now)
            },
            None => res && *final(sm) == *old(sm),
        },
{
    match peer {
        Some(ip) => !security::is_blacklisted(sm, ip.to_text().as_str(), now),
        None => true,
    }
}

/// The text of an optional string.
pub open spec fn string_option(value: Option<String>) -> Option<Seq<char>> {
    match value {
        Some(text) => Some(text@),
        None => None,
    }
}

/// An optional string as an optional slice.
pub fn as_option_str<'a>(value: &'a Option<String>) -> (res: Option<&'a str>)
    ensures
        socks5::text_option(res) == string_option(*value),
{
    match value {
        Some(text) => Some(text.as_str()),
        None => None,
    }
}

/// What is done with the request that bytes are.
fn answer_request(b: &[u8], limit_reached: bool) -> (res: Step)
    ensures
        (res.write@, res.next@) == request_outcome(b@, limit_reached),
{
    let none: Vec<u8> = Vec::new();
    assert(none@ =~= seq![]);
    match socks5::read_packet(b) {
        Progress::More(n) => Step { write: none, next: Next::Read(n) },
        Progress::Failed(_) => Step { write: none, next: Next::Close },
        Progress::Done { value: (command, target), used: _ } => if limit_reached {
            Step { write: socks5::write_reply(0x02, no_address()), next: Next::Close }
        } else if command == socks5::CMD_CONNECT {
            Step { write: none, next: Next::Connect(target) }
        } else if command == socks5::CMD_UDP_ASSOCIATE {
            Step { write: none, next: Next::UdpAssociate(target) }
        } else {
            Step { write: socks5::write_reply(0x07, no_address()), next: Next::Close }
        },
    }
}

/// What lies behind the first `n` bytes.
fn rest_of<'a>(b: &'a [u8], n: usize) -> (res: &'a [u8])
    ensures
        res@ == behind(b@, n as int),
{
    let len: usize = b.len();
    if n <= len {
        slice_subrange(b, n, len)
    } else {
        let res = slice_subrange(b, 0, 0);
        assert(res@ =~= seq![]);
        res
    }
}

impl SocksClient {
    /// A client that has sent nothing yet.
    pub fn new(
        peer: Option<IpAddr>,
        user: Option<String>,
        password: Option<String>,
        limit_reached: bool,
    ) -> (res: SocksClient)
        ensures
            res == (SocksClient {
                peer,
                user,
                password,
                limit_reached,
                phase: Phase::Greeting { sent: 0 },
            }),
    {
        SocksClient { peer, user, password, limit_reached, phase: Phase::Greeting { sent: 0 } }
    }

    /// What is wrong with all the bytes that the client has sent so far, in words.
    pub fn complaint(&self, b: &[u8]) -> (res: Option<String>)
        ensures
            string_option(res) == complaint_of(
                self.phase,
                b@,
                string_option(self.user),
                string_option(self.password),
            ),
    {
        let start: usize = match self.phase {
            Phase::Over => {
                return None;
            },
            Phase::Request { start } => start,
            Phase::Greeting { sent: _ } => {
                let greeting = socks5::handshake(
                    b,
                    as_option_str(&self.user),
                    as_option_str(&self.password),
                );
                match greeting.outcome {
                    Progress::More(_) => {
                        return None;
                    },
                    Progress::Failed(error) => {
                        return Some(error.to_text());
                    },
                    Progress::Done { value: _, used } => used,
                }
            },
        };
        match socks5::read_packet(rest_of(b, start)) {
            Progress::Failed(_) => Some(text::copy_text("Read request failed")),
            _ => None,
        }
    }

    /// Takes all the bytes that the client has sent so far.
    pub fn handle_client(&mut self, b: &[u8], sm: &mut SecurityManager, now: u64) -> (res: Step)
        requires
            old(sm).wf(),
            now + security::BAN_TTL_SECS <= u64::MAX,
        ensures
            final(sm).wf(),
            final(self).peer == old(self).peer,
            final(self).user == old(self).user,
            final(self).password == old(self).password,
            final(self).limit_reached == old(self).limit_reached,
            ({
                let (phase, write, next, report) = client_outcome(
                    old(self).phase,
                    b@,
                    string_option(old(self).user),
                    string_option(old(self).password),
                    old(self).limit_reached,
                );
                &&& final(self).phase == phase
                &&& res.write@ == write
                &&& res.next@ == next
                &&& final(sm)@ == noted(old(sm)@, report, old(self).peer, now)
            }),
    {
        match self.phase {
            Phase::Over => {
                let none: Vec<u8> = Vec::new();
                assert(none@ =~= seq![]);
                Step { write: none, next: Next::Close }
            },
            Phase::Request { start } => {
                let step = answer_request(rest_of(b, start), self.limit_reached);
                match step.next {
                    Next::Read(_) => {},
                    _ => self.phase = Phase::Over,
                }
                step
            },
            Phase::Greeting { sent } => {
                let greeting = socks5::handshake(
                    b,
                    as_option_str(&self.user),
                    as_option_str(&self.password),
                );
                let reply: Vec<u8> = greeting.reply;
                let mut write: Vec<u8> = slice_to_vec(rest_of(reply.as_slice(), sent));
                match greeting.outcome {
                    Progress::More(n) => {
                        if sent < reply.len() {
                            self.phase = Phase::Greeting { sent: reply.len() };
                        }
                        Step { write, next: Next::Read(n) }
                    },
                    Progress::Failed(error) => {
                        self.phase = Phase::Over;
                        if error == HandshakeError::Credentials {
                            note(sm, Report::Failure, self.peer, now);
                        }
                        Step { write, next: Next::Close }
                    },
                    Progress::Done { value: _, used } => {
                        note(sm, Report::Success, self.peer, now);
                        let step = answer_request(rest_of(b, used), self.limit_reached);
                        match step.next {
                            Next::Read(_) => self.phase = Phase::Request { start: used },
                            _ => self.phase = Phase::Over,
                        }
                        write.extend_from_slice(step.write.as_slice());
                        Step { write, next: step.next }
                    },
                }
            },
        }
    }
}

/// What a client is told of its connection: the local address of it, or that the target could
/// not be reached.
pub open spec fn connect_reply_bytes(opened: bool, local: Option<SocketAddr>) -> Seq<u8> {
    if opened {
        socks5::reply_bytes(
            0x00,
            match local {
                Some(addr) => addr,
                None => nowhere(),
            },
        )
    } else {
        socks5::reply_bytes(0x04, nowhere())
    }
}

/// What a client is told of its connection.
pub fn connect_reply(opened: bool, local: Option<SocketAddr>) -> (res: Vec<u8>)
    ensures
        res@ == connect_reply_bytes(opened, local),
{
    if opened {
        match local {
            Some(addr) => socks5::write_reply(0x00, addr),
            None => socks5::write_reply(0x00, no_address()),
        }
    } else {
        socks5::write_reply(0x04, no_address())
    }
}

/// Only wrong credentials count against an address: no other bytes of a client do.
pub proof fn law_only_wrong_credentials_count(
    phase: Phase,
    b: Seq<u8>,
    user: Option<Seq<char>>,
    password: Option<Seq<char>>,
    limit_reached: bool,
)
    ensures
        client_outcome(phase, b, user, password, limit_reached).3 == Report::Failure <==> phase
            is Greeting && socks5::greeting_outcome(b, user, password).1 == (Progress::<
            (),
            HandshakeError,
        >::Failed(HandshakeError::Credentials)),
{
}

/// Nobody who has not passed the greeting is connected anywhere.
pub proof fn law_no_connection_before_the_greeting(
    sent: usize,
    b: Seq<u8>,
    user: Option<Seq<char>>,
    password: Option<Seq<char>>,
    limit_reached: bool,
)
    requires
        ({
            let next = client_outcome(
                Phase::Greeting { sent },
                b,
                user,
                password,
                limit_reached,
            ).2;
            next is Connect || next is UdpAssociate
        }),
    ensures
        socks5::greeting_outcome(b, user, password).1 is Done,
        !limit_reached,
{
}

// ---------------------------------------------------------------------------------------------
// What a client is answered
// ---------------------------------------------------------------------------------------------

/// A whole request of a client that was let in is served by its command, which is its second
/// byte: 1 connects to the target that it names, 3 relays datagrams, and every other command is
/// answered 7. Where the port is full every request is answered 2.
pub proof fn law_request_is_served(
    start: usize,
    b: Seq<u8>,
    user: Option<Seq<char>>,
    password: Option<Seq<char>>,
)
    requires
        start <= b.len(),
        socks5::packet_of(b.skip(start as int)) is Done,
    ensures
        ({
            let phase = Phase::Request { start };
            let served = client_outcome(phase, b, user, password, false);
            let full = client_outcome(phase, b, user, password, true);
            let command = b[start + 1];
            let target = match socks5::packet_of(b.skip(start as int)) {
                Progress::Done { value, .. } => value.1,
                _ => seq![],
            };
            &&& full == (
                Phase::Over,
                seq![5u8, 2u8, 0u8, 1u8, 0u8, 0u8, 0u8, 0u8, 0u8, 0u8],
                NextView::Close,
                Report::Nothing,
            )
            &&& command == 1 ==> served == (
                Phase::Over,
                Seq::<u8>::empty(),
                NextView::Connect(target),
                Report::Nothing,
            )
            &&& command == 3 ==> served == (
                Phase::Over,
                Seq::<u8>::empty(),
                NextView::UdpAssociate(target),
                Report::Nothing,
            )
            &&& command != 1 && command != 3 ==> served == (
                Phase::Over,
                seq![5u8, 7u8, 0u8, 1u8, 0u8, 0u8, 0u8, 0u8, 0u8, 0u8],
                NextView::Close,
                Report::Nothing,
            )
        }),
{
    let s = b.skip(start as int);
    assert(s[1] == b[start + 1]);
    let zeros = seq![5u8, 2u8, 0u8, 1u8, 0u8, 0u8, 0u8, 0u8, 0u8, 0u8];
    assert(socks5::reply_bytes(2, nowhere()) =~= zeros);
    assert(socks5::reply_bytes(7, nowhere()) =~= seq![
        5u8,
        7u8,
        0u8,
        1u8,
        0u8,
        0u8,
        0u8,
        0u8,
        0u8,
        0u8,
    ]);
}

/// A client that greets an open port and asks for a target in one go is let in and connected to
/// the target that it names, whatever methods it offers besides none.
pub proof fn law_client_of_open_port_is_connected(
    methods: Seq<u8>,
    host: Seq<char>,
    hi: u8,
    lo: u8,
    rest: Seq<u8>,
)
    requires
        methods.len() <= 255,
        methods.contains(0),
        vstd::utf8::encode_utf8(host).len() <= 255,
    ensures
        ({
            let name = vstd::utf8::encode_utf8(host);
            let b = seq![5u8, methods.len() as u8] + methods + (seq![
                5u8,
                1u8,
                0u8,
                3u8,
                name.len() as u8,
            ] + name + seq![hi, lo] + rest);
            client_outcome(Phase::Greeting { sent: 0 }, b, None, None, false) == (
                Phase::Over,
                seq![5u8, 0u8],
                NextView::Connect(host + seq![':'] + text::decimal((hi * 256 + lo) as nat)),
                Report::Success,
            )
        }),
{
    let name = vstd::utf8::encode_utf8(host);
    let packet = seq![5u8, 1u8, 0u8, 3u8, name.len() as u8] + name + seq![hi, lo] + rest;
    let b = seq![5u8, methods.len() as u8] + methods + packet;
    let i = choose|i: int| 0 <= i < methods.len() && methods[i] == 0;
    assert(methods[i] == 0);
    socks5::law_open_port_lets_in(methods, None, None, packet);
    let none4 = Ipv4Addr { a: 0, b: 0, c: 0, d: 0 };
    let none6 = crate::net::Ipv6Addr { s0: 0, s1: 0, s2: 0, s3: 0, s4: 0, s5: 0, s6: 0, s7: 0 };
    socks5::law_packet_names_its_target(1, 0, none4, none6, host, hi, lo, rest);
    assert(b.skip(2 + methods.len() as int) =~= packet);
    assert(seq![5u8, 0u8].skip(0) + Seq::<u8>::empty() =~= seq![5u8, 0u8]);
}

/// What is known of a greeting without looking into it: it is answered with four bytes at most.
proof fn lemma_greeting_reply_is_short(
    b: Seq<u8>,
    user: Option<Seq<char>>,
    password: Option<Seq<char>>,
)
    ensures
        socks5::greeting_outcome(b, user, password).0.len() <= 4,
{
}

/// What a greeting whose answer was sent in part comes to, in terms of its whole answer.
pub open spec fn greeted(
    sent: int,
    reply: Seq<u8>,
    outcome: Progress<(), HandshakeError>,
    b: Seq<u8>,
    limit_reached: bool,
) -> (Phase, Seq<u8>, NextView) {
    let unsent = behind(reply, sent);
    match outcome {
        Progress::More(n) => (
            Phase::Greeting {
                sent: if sent < reply.len() {
                    reply.len() as usize
                } else {
                    sent as usize
                },
            },
            unsent,
            NextView::Read(n),
        ),
        Progress::Failed(_) => (Phase::Over, unsent, NextView::Close),
        Progress::Done { value, used } => {
            let (write, next) = request_outcome(behind(b, used as int), limit_reached);
            (request_phase(next, used), unsent + write, next)
        },
    }
}

proof fn lemma_greeted(
    sent: usize,
    b: Seq<u8>,
    user: Option<Seq<char>>,
    password: Option<Seq<char>>,
    limit_reached: bool,
)
    ensures
        ({
            let (reply, outcome) = socks5::greeting_outcome(b, user, password);
            let got = client_outcome(Phase::Greeting { sent }, b, user, password, limit_reached);
            (got.0, got.1, got.2) == greeted(sent as int, reply, outcome, b, limit_reached)
        }),
{
}

proof fn lemma_greeted_in_pieces(
    reply: Seq<u8>,
    whole: Seq<u8>,
    outcome: Progress<(), HandshakeError>,
    b: Seq<u8>,
    limit_reached: bool,
)
    requires
        reply.is_prefix_of(whole),
        whole.len() <= 4,
    ensures
        ({
            let later = greeted(reply.len() as int, whole, outcome, b, limit_reached);
            let once = greeted(0, whole, outcome, b, limit_reached);
            later.0 == once.0 && later.2 == once.2 && reply + later.1 == once.1
        }),
{
    let sent = reply.len() as int;
    assert(behind(whole, 0) =~= whole);
    assert(behind(whole, sent) =~= whole.skip(sent));
    assert(reply =~= whole.take(sent));
    assert(reply + whole.skip(sent) =~= whole);
    match outcome {
        Progress::Done { value, used } => {
            let (write, next) = request_outcome(behind(b, used as int), limit_reached);
            assert(reply + (whole.skip(sent) + write) =~= whole + write);
        },
        _ => {},
    }
}

/// However a client's bytes are cut into pieces, it is answered the same: what is written when
/// they have all come is what is written at once, nothing twice and nothing left out, and what
/// follows is the same.
#[verifier::rlimit(50)]
pub proof fn law_pieces_do_not_matter(
    b: Seq<u8>,
    more: Seq<u8>,
    user: Option<Seq<char>>,
    password: Option<Seq<char>>,
    limit_reached: bool,
)
    ensures
        ({
            let start = Phase::Greeting { sent: 0 };
            let first = client_outcome(start, b, user, password, limit_reached);
            let second = client_outcome(first.0, b + more, user, password, limit_reached);
            let whole = client_outcome(start, b + more, user, password, limit_reached);
            first.2 is Read ==> second.0 == whole.0 && first.1 + second.1 == whole.1 && second.2
                == whole.2
        }),
{
    let c = b + more;
    socks5::law_greeting_is_stable(b, more, user, password);
    lemma_greeting_reply_is_short(b, user, password);
    lemma_greeting_reply_is_short(c, user, password);
    let (reply, outcome) = socks5::greeting_outcome(b, user, password);
    let (whole, after) = socks5::greeting_outcome(c, user, password);
    lemma_greeted(0, b, user, password, limit_reached);
    lemma_greeted(0, c, user, password, limit_reached);
    assert(behind(reply, 0) =~= reply);
    match outcome {
        Progress::More(n) => {
            lemma_greeted(reply.len() as usize, c, user, password, limit_reached);
            lemma_greeted_in_pieces(reply, whole, after, c, limit_reached);
        },
        Progress::Done { value, used } => {
            let (write, next) = request_outcome(behind(b, used as int), limit_reached);
            let (later, _) = request_outcome(behind(c, used as int), limit_reached);
            if next is Read {
                assert(write =~= Seq::<u8>::empty());
                assert((reply + write) + later =~= reply + later);
            }
        },
        _ => {},
    }
}

/// A client whose target was reached is told 0 and the address that its connection leaves from;
/// one whose target was not is told 4.
pub proof fn law_connect_reply(ip: Ipv4Addr, port: u16, local: Option<SocketAddr>)
    ensures
        connect_reply_bytes(true, Some(SocketAddr::V4 { ip, port })) == seq![
            5u8,
            0u8,
            0u8,
            1u8,
            ip.a,
            ip.b,
            ip.c,
            ip.d,
            (port / 256) as u8,
            (port % 256) as u8,
        ],
        connect_reply_bytes(true, None) == seq![
            5u8,
            0u8,
            0u8,
            1u8,
            0u8,
            0u8,
            0u8,
            0u8,
            0u8,
            0u8,
        ],
        connect_reply_bytes(false, local) == seq![
            5u8,
            4u8,
            0u8,
            1u8,
            0u8,
            0u8,
            0u8,
            0u8,
            0u8,
            0u8,
        ],
{
}

/// Whoever is let in is counted as such, on every phase and cut: a client is reported as a
/// success exactly when its greeting is over and done.
pub proof fn law_success_is_reported_once(
    phase: Phase,
    b: Seq<u8>,
    user: Option<Seq<char>>,
    password: Option<Seq<char>>,
    limit_reached: bool,
)
    ensures
        client_outcome(phase, b, user, password, limit_reached).3 == Report::Success <==> phase
            is Greeting && socks5::greeting_outcome(b, user, password).1 is Done,
        client_outcome(phase, b, user, password, limit_reached).3 != Report::Nothing
            ==> !(client_outcome(phase, b, user, password, limit_reached).0 is Greeting),
{
}

/// What is reported of a client is counted for its address: the tenth failure bans it for fifteen
/// minutes, a success forgets its failures, and nothing is counted where nothing is to report or
/// the address is not known.
pub proof fn law_reports_are_counted(
    known: SecurityView,
    ip: IpAddr,
    report: Report,
    now: u64,
    later: u64,
)
    requires
        now + 900 <= u64::MAX,
    ensures
        ({
            let name = address_text::ip_text(ip);
            let count = if known.attempts.contains_key(name) {
                known.attempts[name] as int
            } else {
                0
            };
            &&& !known.bans.contains_key(name) && count < 9 ==> {
                let after = noted(known, Report::Failure, Some(ip), now);
                after.attempts.contains_key(name) && after.attempts[name] == count + 1
                    && !security::banned(after, name, later)
            }
            &&& !known.bans.contains_key(name) && count == 9 ==> (security::banned(
                noted(known, Report::Failure, Some(ip), now),
                name,
                later,
            ) <==> later < now + 900)
            &&& !noted(known, Report::Success, Some(ip), now).attempts.contains_key(name)
            &&& noted(known, Report::Success, Some(ip), now).bans == known.bans
            &&& noted(known, Report::Nothing, Some(ip), now) == known
            &&& noted(known, report, None, now) == known
        }),
{
    if !known.attempts.contains_key(address_text::ip_text(ip)) || known.attempts[address_text::ip_text(
        ip,
    )] <= 9 {
        security::law_failures_are_counted(known, address_text::ip_text(ip), now, later);
    }
}

/// A client is complained of exactly when it is turned away or its request cannot be read, and
/// never while it is served or more is waited for.
pub proof fn law_complaints(
    phase: Phase,
    b: Seq<u8>,
    user: Option<Seq<char>>,
    password: Option<Seq<char>>,
)
    ensures
        phase is Over ==> complaint_of(phase, b, user, password) is None,
        phase matches Phase::Request { start } ==> start <= b.len() ==> complaint_of(
            phase,
            b,
            user,
            password,
        ) == if socks5::packet_of(b.skip(start as int)) is Failed {
            Some("Read request failed"@)
        } else {
            None
        },
        phase is Greeting ==> match socks5::greeting_outcome(b, user, password).1 {
            Progress::More(_) => complaint_of(phase, b, user, password) is None,
            Progress::Failed(error) => complaint_of(phase, b, user, password) == Some(
                socks5::refusal_words(error),
            ),
            Progress::Done { value, used } => used <= b.len() ==> (complaint_of(
                phase,
                b,
                user,
                password,
            ) is Some <==> socks5::packet_of(b.skip(used as int)) is Failed),
        },
{
}

/// A client is turned away exactly while its address is banned; one whose address is not known is
/// not.
pub proof fn law_banned_clients_are_turned_away(known: SecurityView, ip: IpAddr, now: u64)
    ensures
        ({
            let name = address_text::ip_text(ip);
            may_come(known, Some(ip), now) <==> !(known.bans.contains_key(name) && now
                < known.bans[name])
        }),
        may_come(known, None, now),
{
}

} // verus!
