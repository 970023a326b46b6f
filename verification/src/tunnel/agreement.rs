//! That the two ends of the tunnel understand each other: what one writes, the other reads.
use vstd::prelude::*;
use vstd::utf8::encode_utf8;

use crate::net;
use crate::progress::Progress;
use crate::socks5::{self, PacketError, TargetError};
use crate::tunnel::agent::{self, ServerCommandView};
use crate::tunnel::control::{self, AgentMessageView, HelloError};
use crate::tunnel::data;
use crate::tunnel_common::TunnelCmd;

verus! {

/// The server reads an agent's name and password as the agent gave them, where neither is longer
/// than its length can say. What the agent runs on is the byte behind.
pub proof fn law_server_reads_hello(name: Seq<char>, password: Seq<char>, android: bool)
    requires
        encode_utf8(name).len() <= 255,
        encode_utf8(password).len() <= 255,
    ensures
        ({
            let hello = agent::agent_hello(2, name, password, android);
            &&& control::hello_of(hello) == (Progress::<(Seq<char>, Seq<char>), HelloError>::Done {
                value: (name, password),
                used: (hello.len() - 1) as usize,
            })
            &&& hello.last() == (if android {
                1u8
            } else {
                0u8
            })
            &&& agent::agent_hello(1, name, password, android) == seq![0x00u8] + hello
        }),
{
    let x = encode_utf8(name);
    let y = encode_utf8(password);
    let n = x.len() as int;
    let m = y.len() as int;
    let hello = agent::agent_hello(2, name, password, android);
    vstd::utf8::encode_utf8_valid_utf8(name);
    vstd::utf8::encode_utf8_decode_utf8(name);
    vstd::utf8::encode_utf8_valid_utf8(password);
    vstd::utf8::encode_utf8_decode_utf8(password);
    assert(hello[0] == n);
    assert(hello[1 + n] == m);
    assert(hello.subrange(1, 1 + n) =~= x);
    assert(hello.subrange(2 + n, 2 + n + m) =~= y);
    assert(agent::agent_hello(1, name, password, android) =~= seq![0x00u8] + hello);
}

/// The server reads from a data connection which agent opened it and for which request, where
/// the agent's name is not longer than its length can say.
pub proof fn law_server_reads_request_hello(name: Seq<char>, id: u32)
    requires
        encode_utf8(name).len() <= 255,
    ensures
        ({
            let hello = agent::request_hello(name, id).skip(1);
            data::data_hello_of(hello) == (Progress::<(Seq<char>, u32), ()>::Done {
                value: (name, id),
                used: hello.len() as usize,
            })
        }),
{
    let x = encode_utf8(name);
    let n = x.len() as int;
    let hello = agent::request_hello(name, id).skip(1);
    vstd::utf8::encode_utf8_valid_utf8(name);
    vstd::utf8::encode_utf8_decode_utf8(name);
    net::lemma_be32(id);
    assert(hello =~= agent::with_length(name) + net::be32(id));
    assert(hello[0] == n);
    assert(hello.subrange(1, 1 + n) =~= x);
    assert(hello[1 + n] == net::be32(id)[0]);
    assert(hello[2 + n] == net::be32(id)[1]);
    assert(hello[3 + n] == net::be32(id)[2]);
    assert(hello[4 + n] == net::be32(id)[3]);
}

/// The server reads from a data connection which token it is for, and how the agent fared.
pub proof fn law_server_reads_token_hello(token: [u8; 16], status: u8)
    ensures
        data::token_hello_of(agent::token_hello(token@, status).skip(1)) == (Progress::<
            ([u8; 16], u8),
            (),
        >::Done { value: (token, status), used: 17 }),
{
    let hello = agent::token_hello(token@, status).skip(1);
    assert(hello =~= token@ + seq![status]);
    assert(hello.take(16) =~= token@);
    data::lemma_token_at(hello, token);
}

/// The server reads a device's report as it was sent.
pub proof fn law_server_reads_status(status: Seq<char>)
    requires
        agent::status_frame(status) is Some,
    ensures
        ({
            let frame = agent::status_frame(status)->0;
            control::agent_message_of(frame, 2) == (Progress::<AgentMessageView, ()>::Done {
                value: AgentMessageView::Status(encode_utf8(status)),
                used: frame.len() as usize,
            })
        }),
{
    let frame = agent::status_frame(status)->0;
    let bytes = encode_utf8(status);
    let n = bytes.len() as u16;
    net::lemma_be16(n);
    assert(frame[1] == net::be16(n)[0] && frame[2] == net::be16(n)[1]);
    assert(frame.subrange(3, 3 + n) =~= bytes);
}

/// What an agent is to make of a command.
pub open spec fn meant(cmd: TunnelCmd, target: Seq<char>) -> ServerCommandView {
    match cmd {
        TunnelCmd::RequireConn(id) => ServerCommandView::Require(id),
        TunnelCmd::Open { token, target: _ } => ServerCommandView::Open(
            token,
            socks5::reached_target(target),
        ),
        TunnelCmd::UdpSession(port) => ServerCommandView::Udp(port),
        TunnelCmd::ResetIp => ServerCommandView::Reset,
    }
}

proof fn lemma_agent_reads_open(
    token: [u8; 16],
    encoded: Seq<u8>,
    target: Seq<char>,
    rest: Seq<u8>,
)
    requires
        socks5::target_bytes(target) == Ok::<Seq<u8>, TargetError>(encoded),
    ensures
        agent::command_of(seq![control::CMD_OPEN] + token@ + encoded + rest, 2) == (Progress::<
            ServerCommandView,
            PacketError,
        >::Done {
            value: ServerCommandView::Open(token, socks5::reached_target(target)),
            used: (17 + encoded.len()) as usize,
        }),
{
    let c = seq![control::CMD_OPEN] + token@ + encoded + rest;
    socks5::law_encoded_target_is_read(target, rest, false);
    assert(c[0] == control::CMD_OPEN);
    assert(c.skip(17) =~= encoded + rest);
    assert(c.skip(1).take(16) =~= token@);
    data::lemma_token_at(c.skip(1), token);
}

/// An agent of either protocol version makes of a command what the server means by it, whatever
/// comes behind. The target of a command to open a connection is one that was encoded.
pub proof fn law_agent_reads_command(
    protocol_version: u8,
    cmd: TunnelCmd,
    target: Seq<char>,
    rest: Seq<u8>,
)
    requires
        control::command_bytes(protocol_version, cmd) is Some,
        cmd matches TunnelCmd::Open { token, target: encoded } ==> socks5::target_bytes(target)
            == Ok::<Seq<u8>, TargetError>(encoded@),
    ensures
        ({
            let b = control::command_bytes(protocol_version, cmd)->0;
            agent::command_of(b + rest, protocol_version) == (Progress::<
                ServerCommandView,
                PacketError,
            >::Done { value: meant(cmd, target), used: b.len() as usize })
        }),
{
    let b = control::command_bytes(protocol_version, cmd)->0;
    let c = b + rest;
    match cmd {
        TunnelCmd::RequireConn(id) => {
            net::lemma_be32(id);
            assert(c[1] == net::be32(id)[0] && c[2] == net::be32(id)[1] && c[3] == net::be32(id)[2]
                && c[4] == net::be32(id)[3]);
        },
        TunnelCmd::Open { token, target: encoded } => {
            lemma_agent_reads_open(token, encoded@, target, rest);
        },
        TunnelCmd::UdpSession(port) => {
            net::lemma_be16(port);
            assert(c[1] == net::be16(port)[0] && c[2] == net::be16(port)[1]);
        },
        TunnelCmd::ResetIp => {},
    }
}

/// A ping is read as one by either side.
pub proof fn law_pings_are_understood(protocol_version: u8)
    ensures
        control::agent_message_of(seq![control::CMD_PING], protocol_version) == (Progress::<
            AgentMessageView,
            (),
        >::Done { value: AgentMessageView::Ping, used: 1 }),
        agent::command_of(seq![control::CMD_PING], protocol_version) == (Progress::<
            ServerCommandView,
            PacketError,
        >::Done { value: ServerCommandView::Ping, used: 1 }),
{
}

/// The server knows what a connection of an agent is for by the first byte that the agent writes
/// on it.
pub proof fn law_connections_are_known_by_their_first_byte(
    version: u8,
    name: Seq<char>,
    password: Seq<char>,
    android: bool,
    id: u32,
    token: [u8; 16],
    status: u8,
)
    ensures
        version != 2 ==> control::kind_of(agent::agent_hello(version, name, password, android)[0])
            == control::ConnectionKind::Control,
        control::kind_of(agent::request_hello(name, id)[0]) == control::ConnectionKind::Data,
        control::kind_of(agent::token_hello(token@, status)[0])
            == control::ConnectionKind::TokenData,
{
}

} // verus!
