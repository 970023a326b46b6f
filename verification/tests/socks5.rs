use rust_proxy::address_text::{parse_ip, parse_socket};
use rust_proxy::net::{IpAddr, Ipv4Addr, SocketAddr};
use rust_proxy::progress::Progress;
use rust_proxy::security::{is_blacklisted, SecurityManager};
use rust_proxy::socks5::client::{connect_reply, Next, Phase, SocksClient};
use rust_proxy::socks5::open::{
    choose_route, link_route, log_connect_timing, setup_error, AgentFault, ConnectError, Failure,
    OpenAction, OpenEvent, OpenPhase, OpenTarget, Route, TargetFault, MAX_DRAWS,
};
use rust_proxy::socks5::relay::{
    hole_punch, public_udp_addr, BindFault, BindOutcome, BindStep, PortSearch, UdpRelay,
};
use rust_proxy::socks5::{
    build_connect_packet, encode_target_address, handshake, is_tunneled_udp_client, read_packet,
    timing_line, validate_target, write_reply, HandshakeError, PacketError, TargetError,
};
use rust_proxy::tunnel_common::TunnelCmd;

fn ip(text: &str) -> IpAddr {
    let chars: Vec<char> = text.chars().collect();
    parse_ip(&chars).unwrap()
}

fn socket(text: &str) -> SocketAddr {
    let chars: Vec<char> = text.chars().collect();
    parse_socket(&chars).unwrap()
}

#[test]
fn timing_line_keeps_the_parser_contract_on_one_line() {
    assert_eq!(
        timing_line("phone\n1", 51314, "example.com:443\r", 200, 50, 75, 330, "timeout"),
        "timing agent=phone1 port=51314 target=example.com:443 data_conn_ms=200 greeting_rtt_ms=50 connect_reply_ms=75 total_ms=330 result=timeout",
    );
}

#[test]
fn tunneled_udp_only_accepts_the_tcp_client_ip() {
    let client_ip = ip("192.0.2.10");
    assert!(is_tunneled_udp_client(client_ip, socket("192.0.2.10:60000")));
    assert!(!is_tunneled_udp_client(client_ip, socket("192.0.2.11:60000")));
}

#[test]
fn targets_are_encoded() {
    assert_eq!(
        encode_target_address("192.0.2.1:80").unwrap(),
        vec![1, 192, 0, 2, 1, 0, 80]
    );
    assert_eq!(
        encode_target_address("example.com:443").unwrap(),
        [&[3u8, 11][..], b"example.com", &[1, 187]].concat()
    );
    let v6 = encode_target_address("[2001:db8::1]:443").unwrap();
    assert_eq!(v6.len(), 19);
    assert_eq!(v6[0], 4);
    assert_eq!(encode_target_address("example.com"), Err(TargetError::NoPort));
    assert_eq!(encode_target_address("example.com:"), Err(TargetError::BadPort));
    assert_eq!(encode_target_address(":80"), Err(TargetError::BadDomain));
    let long = format!("{}:80", "a".repeat(256));
    assert_eq!(encode_target_address(&long), Err(TargetError::BadDomain));
    assert!(validate_target("example.com:443").is_ok());
    assert!(validate_target("example.com:70000").is_err());
}

#[test]
fn packets_read_back() {
    let packet = build_connect_packet("example.com:443").unwrap();
    assert_eq!(&packet[..3], &[5, 1, 0]);
    match read_packet(&packet) {
        Progress::Done { value: (command, target), used } => {
            assert_eq!(command, 1);
            assert_eq!(target, "example.com:443");
            assert_eq!(used, packet.len());
        }
        _ => panic!("the packet was not read"),
    }
    for n in 0..packet.len() {
        assert!(matches!(read_packet(&packet[..n]), Progress::More(_)));
    }
    assert!(matches!(read_packet(&[4, 1, 0, 1]), Progress::Failed(PacketError::Version)));
    assert!(matches!(
        read_packet(&[5, 1, 0, 9]),
        Progress::Failed(PacketError::AddressType(9))
    ));
    assert!(matches!(
        read_packet(&[5, 1, 0, 3, 1, 0xff, 0, 80]),
        Progress::Failed(PacketError::HostEncoding)
    ));
}

#[test]
fn replies_are_written() {
    assert_eq!(
        write_reply(0, socket("127.0.0.1:8080")),
        vec![5, 0, 0, 1, 127, 0, 0, 1, 31, 144]
    );
    assert_eq!(connect_reply(false, None), vec![5, 4, 0, 1, 0, 0, 0, 0, 0, 0]);
    assert_eq!(connect_reply(true, None), vec![5, 0, 0, 1, 0, 0, 0, 0, 0, 0]);
    assert_eq!(
        connect_reply(true, Some(socket("127.0.0.1:8080"))),
        write_reply(0, socket("127.0.0.1:8080"))
    );
}

#[test]
fn greetings_are_judged() {
    let open = handshake(&[5, 1, 0], None, None);
    assert_eq!(open.reply, vec![5, 0]);
    assert!(matches!(open.outcome, Progress::Done { used: 3, .. }));

    let needs_password = handshake(&[5, 1, 0], Some("user"), Some("pass"));
    assert_eq!(needs_password.reply, vec![5, 0xff]);
    assert!(matches!(
        needs_password.outcome,
        Progress::Failed(HandshakeError::PasswordNotOffered)
    ));

    let no_method = handshake(&[5, 1, 2], None, None);
    assert_eq!(no_method.reply, vec![5, 0xff]);
    assert!(matches!(no_method.outcome, Progress::Failed(HandshakeError::PasswordRequired)));

    assert!(matches!(
        handshake(&[4, 0], None, None).outcome,
        Progress::Failed(HandshakeError::Version(4))
    ));
    assert!(matches!(
        handshake(&[5, 1, 2, 9, 0], Some("user"), Some("pass")).outcome,
        Progress::Failed(HandshakeError::AuthVersion)
    ));

    let good = [&[5u8, 1, 2, 1, 4][..], b"user", &[4], b"pass"].concat();
    let right = handshake(&good, Some("user"), Some("pass"));
    assert_eq!(right.reply, vec![5, 2, 1, 0]);
    assert!(matches!(right.outcome, Progress::Done { .. }));

    let bad = [&[5u8, 1, 2, 1, 4][..], b"user", &[3], b"bad"].concat();
    let wrong = handshake(&bad, Some("user"), Some("pass"));
    assert_eq!(wrong.reply, vec![5, 2, 1, 1]);
    assert!(matches!(wrong.outcome, Progress::Failed(HandshakeError::Credentials)));
}

#[test]
fn credentials_that_are_not_utf8_are_repaired() {
    let sent = [&[5u8, 1, 2, 1, 1, 0xff, 1][..], b"p"].concat();
    let repaired = handshake(&sent, Some("\u{fffd}"), Some("p"));
    assert!(matches!(repaired.outcome, Progress::Done { .. }));
}

#[test]
fn a_client_is_led_to_its_target() {
    let mut sm = SecurityManager::new();
    let mut client = SocksClient::new(
        Some(ip("198.51.100.7")),
        Some("user".to_string()),
        Some("pass".to_string()),
        false,
    );
    let mut sent: Vec<u8> = vec![5, 1, 2];
    let step = client.handle_client(&sent, &mut sm, 0);
    assert_eq!(step.write, vec![5, 2]);
    assert!(matches!(step.next, Next::Read(2)));

    sent.extend_from_slice(&[1, 4]);
    sent.extend_from_slice(b"user");
    sent.push(4);
    sent.extend_from_slice(b"pass");
    let step = client.handle_client(&sent, &mut sm, 0);
    assert_eq!(step.write, vec![1, 0]);
    assert!(matches!(step.next, Next::Read(_)));
    assert!(matches!(client.phase, Phase::Request { .. }));

    sent.extend_from_slice(&build_connect_packet("example.com:443").unwrap());
    let step = client.handle_client(&sent, &mut sm, 0);
    assert!(step.write.is_empty());
    match step.next {
        Next::Connect(target) => assert_eq!(target, "example.com:443"),
        _ => panic!("the client was not led to its target"),
    }
}

#[test]
fn wrong_credentials_count_and_other_errors_do_not() {
    let mut sm = SecurityManager::new();
    let bad = [&[5u8, 1, 2, 1, 4][..], b"user", &[3], b"bad"].concat();
    for _ in 0..10 {
        let mut client = SocksClient::new(
            Some(ip("198.51.100.7")),
            Some("user".to_string()),
            Some("pass".to_string()),
            false,
        );
        let step = client.handle_client(&bad, &mut sm, 0);
        assert!(matches!(step.next, Next::Close));

        let mut scanner = SocksClient::new(Some(ip("198.51.100.8")), None, None, false);
        let step = scanner.handle_client(&[4, 1], &mut sm, 0);
        assert!(matches!(step.next, Next::Close));
    }
    assert!(is_blacklisted(&mut sm, "198.51.100.7", 0));
    assert!(!is_blacklisted(&mut sm, "198.51.100.8", 0));
}

#[test]
fn full_ports_and_unknown_commands_are_refused() {
    let mut sm = SecurityManager::new();
    let mut full = SocksClient::new(None, None, None, true);
    let sent = [&[5u8, 1, 0][..], &build_connect_packet("example.com:443").unwrap()].concat();
    let step = full.handle_client(&sent, &mut sm, 0);
    assert_eq!(step.write, vec![5, 0, 5, 2, 0, 1, 0, 0, 0, 0, 0, 0]);
    assert!(matches!(step.next, Next::Close));

    let mut unknown = SocksClient::new(None, None, None, false);
    let step = unknown.handle_client(&[5, 1, 0, 5, 2, 0, 1, 1, 2, 3, 4, 0, 80], &mut sm, 0);
    assert_eq!(step.write, vec![5, 0, 5, 7, 0, 1, 0, 0, 0, 0, 0, 0]);
    assert!(matches!(step.next, Next::Close));

    let mut udp = SocksClient::new(None, None, None, false);
    let step = udp.handle_client(&[5, 1, 0, 5, 3, 0, 1, 0, 0, 0, 0, 0, 0], &mut sm, 0);
    match step.next {
        Next::UdpAssociate(named) => assert_eq!(named, "0.0.0.0:0"),
        _ => panic!("datagrams were refused"),
    }
}

#[test]
fn routes_are_chosen() {
    assert_eq!(choose_route(2, true, true, true, true), Route::Open);
    assert_eq!(choose_route(2, false, false, false, true), Route::Offline);
    assert_eq!(choose_route(1, true, true, true, true), Route::Request);
    assert_eq!(choose_route(1, false, false, false, true), Route::Offline);
    assert_eq!(choose_route(1, false, false, false, false), Route::Direct);
}

#[test]
fn a_target_is_opened_by_request() {
    let mut requests = dashmap::DashMap::new();
    let mut opens = dashmap::DashMap::new();
    let mut attempt = OpenTarget::new("example.com:443".to_string(), Route::Request, 77);
    let mut step = |attempt: &mut OpenTarget, event| {
        attempt.open_target(event, &mut requests, &mut opens)
    };
    assert!(matches!(
        step(&mut attempt, OpenEvent::Begin { resetting: false }),
        OpenAction::Draw
    ));
    let mut bytes = [0u8; 32];
    bytes[3] = 9;
    let action = step(
        &mut attempt,
        OpenEvent::Random { bytes: Some(bytes), resetting: false },
    );
    assert!(matches!(action, OpenAction::Send(TunnelCmd::RequireConn(9))));
    assert!(matches!(step(&mut attempt, OpenEvent::Sent(true)), OpenAction::Await));
    match step(&mut attempt, OpenEvent::Connected) {
        OpenAction::Talk { write, read } => {
            let packet = build_connect_packet("example.com:443").unwrap();
            assert_eq!(write, [&[5u8, 1, 0][..], &packet].concat());
            assert_eq!(read, 2);
        }
        _ => panic!("the agent was not greeted"),
    }
    let answer = [&[5u8, 0][..], &write_reply(0, socket("127.0.0.1:1"))].concat();
    assert!(matches!(
        step(&mut attempt, OpenEvent::Received(answer)),
        OpenAction::Ready
    ));
    assert_eq!(requests.get(&9).map(|waiter| *waiter), Some(77));
    assert!(opens.is_empty());
}

#[test]
fn attempts_fail_for_their_reasons() {
    let begin = |route, resetting| {
        let mut attempt = OpenTarget::new("example.com:443".to_string(), route, 1);
        attempt.open_target(
            OpenEvent::Begin { resetting },
            &mut dashmap::DashMap::new(),
            &mut dashmap::DashMap::new(),
        )
    };
    assert!(matches!(
        begin(Route::Offline, false),
        OpenAction::Fail(ConnectError::AgentUnavailable(AgentFault::Offline))
    ));
    assert!(matches!(
        begin(Route::Open, true),
        OpenAction::Fail(ConnectError::AgentUnavailable(AgentFault::Resetting))
    ));
    assert!(matches!(begin(Route::Direct, true), OpenAction::Dial));

    let mut opens = dashmap::DashMap::new();
    let mut requests = dashmap::DashMap::new();
    let mut attempt = OpenTarget::new("example.com:443".to_string(), Route::Open, 5);
    attempt.open_target(OpenEvent::Begin { resetting: false }, &mut requests, &mut opens);
    let action = attempt.open_target(
        OpenEvent::Random { bytes: Some([3; 32]), resetting: false },
        &mut requests,
        &mut opens,
    );
    match action {
        OpenAction::Send(TunnelCmd::Open { token, target }) => {
            assert_eq!(token, [3; 16]);
            assert_eq!(target, encode_target_address("example.com:443").unwrap());
        }
        _ => panic!("the agent was not told"),
    }
    assert!(opens.contains_key(&[3; 16]));
    attempt.open_target(OpenEvent::Sent(true), &mut requests, &mut opens);
    assert!(matches!(
        attempt.open_target(OpenEvent::Unreachable, &mut requests, &mut opens),
        OpenAction::Fail(ConnectError::Target(TargetFault::Unreachable))
    ));
    assert!(opens.is_empty());
    assert!(matches!(attempt.phase, OpenPhase::Over));
}

#[test]
fn only_so_many_numbers_are_drawn() {
    let mut requests = dashmap::DashMap::new();
    let mut opens = dashmap::DashMap::new();
    requests.insert(0, 1);
    let mut attempt = OpenTarget::new("example.com:443".to_string(), Route::Request, 2);
    attempt.open_target(OpenEvent::Begin { resetting: false }, &mut requests, &mut opens);
    for _ in 0..MAX_DRAWS - 1 {
        let action = attempt.open_target(
            OpenEvent::Random { bytes: Some([0; 32]), resetting: false },
            &mut requests,
            &mut opens,
        );
        assert!(matches!(action, OpenAction::Draw));
    }
    let action = attempt.open_target(
        OpenEvent::Random { bytes: Some([0; 32]), resetting: false },
        &mut requests,
        &mut opens,
    );
    assert!(matches!(
        action,
        OpenAction::Fail(ConnectError::AgentUnavailable(AgentFault::NoRequestId))
    ));
    assert_eq!(requests.len(), 1);
}

#[test]
fn timings_are_logged_for_agents() {
    assert_eq!(log_connect_timing(None, 1, "t", 1, 2, 3, 4, None), None);
    assert_eq!(
        log_connect_timing(Some("phone"), 51300, "t:1", 1, 2, 3, 4, None),
        Some(timing_line("phone", 51300, "t:1", 1, 2, 3, 4, "ok"))
    );
    assert_eq!(
        log_connect_timing(
            Some("phone"),
            51300,
            "t:1",
            1,
            2,
            3,
            4,
            Some(ConnectError::AgentUnavailable(AgentFault::Offline)),
        ),
        Some(timing_line("phone", 51300, "t:1", 1, 2, 3, 4, "agent_offline"))
    );
}

#[test]
fn datagrams_are_relayed_between_client_and_agent() {
    let mut relay = UdpRelay::new(ip("192.0.2.10"));
    let client = socket("192.0.2.10:60000");
    let agent = socket("203.0.113.5:4000");
    let stranger = socket("198.51.100.1:1");
    assert_eq!(relay.receive(client, b"early"), None);
    assert_eq!(relay.receive(stranger, b"noise"), None);
    assert_eq!(hole_punch(), b"GROWBOT_HOLE".to_vec());
    assert_eq!(relay.receive(agent, b"GROWBOT_HOLE"), None);
    assert_eq!(relay.receive(client, b"ping"), Some(agent));
    assert_eq!(relay.receive(agent, b"pong"), Some(client));
    assert_eq!(relay.receive(stranger, b"noise"), None);
}

#[test]
fn every_port_of_the_range_is_tried() {
    let mut search = PortSearch::new();
    let mut count = 42;
    let mut seen = Vec::new();
    let mut outcome = None;
    loop {
        match search.bind_public_udp_socket(&mut count, outcome) {
            BindStep::Try(port) => seen.push(port),
            BindStep::GiveUp(fault) => {
                assert_eq!(fault, BindFault::AllInUse);
                break;
            }
            BindStep::Done => panic!("no port was free"),
        }
        outcome = Some(BindOutcome::InUse);
    }
    assert_eq!(seen[0], 51342);
    seen.sort();
    seen.dedup();
    assert_eq!(seen.len(), 100);
    assert_eq!(seen[0], 51300);
    assert_eq!(seen[99], 51399);
    assert_eq!(count, 142);
}

#[test]
fn the_public_address_is_the_configured_one() {
    let local = IpAddr::V4(Ipv4Addr { a: 10, b: 0, c: 0, d: 1 });
    assert_eq!(public_udp_addr(None, local, 5), Some(socket("10.0.0.1:5")));
    let configured = vec![socket("[2001:db8::1]:0"), socket("203.0.113.9:0")];
    assert_eq!(public_udp_addr(Some(configured), local, 5), Some(socket("203.0.113.9:5")));
    assert_eq!(public_udp_addr(Some(vec![socket("[::1]:0")]), local, 5), None);
}

#[test]
fn errors_are_called_by_their_names() {
    let known = Failure { target: "a:1", received: &[], cause: "no entropy" };
    let agent = |fault| ConnectError::AgentUnavailable(fault).to_text(known);
    assert_eq!(agent(AgentFault::Offline), "Agent is offline");
    assert_eq!(agent(AgentFault::Resetting), "Agent is resetting");
    assert_eq!(agent(AgentFault::NoRequestId), "Could not reserve a tunnel request ID");
    assert_eq!(agent(AgentFault::NoToken), "Could not reserve a tunnel token");
    assert_eq!(
        agent(AgentFault::Dropped(Some(7))),
        "Agent data channel dropped for request 7"
    );
    assert_eq!(
        agent(AgentFault::TimedOut(None)),
        "Timeout waiting for agent data connection"
    );
    assert_eq!(agent(AgentFault::Refused(5, 255)), "Agent refused handshake: [5, 255]");
    assert_eq!(
        agent(AgentFault::Reply(PacketError::AddressType(9))),
        "Unsupported address type: 9"
    );
    assert_eq!(agent(AgentFault::NoRandom), "no entropy");
    assert_eq!(agent(AgentFault::Io), "no entropy");
    assert_eq!(agent(AgentFault::NotSent), "channel closed");
    let target = |fault, target: &str| ConnectError::Target(fault).to_text(Failure { target, ..known });
    assert_eq!(
        target(TargetFault::Address(TargetError::NoPort), "host"),
        "Invalid address format: host"
    );
    assert_eq!(
        target(TargetFault::Address(TargetError::BadDomain), "a b:1"),
        "Invalid domain: a b"
    );
    assert_eq!(target(TargetFault::Unreachable, "a:1"), "Agent could not reach target");
    assert_eq!(
        target(TargetFault::Reported(4), "a:1"),
        "Agent reported error connecting to target: 4"
    );
    assert_eq!(target(TargetFault::Io, "a:1"), "Failed to connect to target");
    assert_eq!(target(TargetFault::Setup, "a:1"), "no entropy");
}

#[test]
fn faults_of_texts_are_told_as_they_are_found() {
    let failure = Failure { target: "host:65536", received: &[], cause: "" };
    assert_eq!(
        ConnectError::Target(TargetFault::Address(TargetError::BadPort)).to_text(failure),
        "65536".parse::<u16>().unwrap_err().to_string()
    );
    let failure = Failure { target: "host:", ..failure };
    assert_eq!(
        ConnectError::Target(TargetFault::Address(TargetError::BadPort)).to_text(failure),
        "".parse::<u16>().unwrap_err().to_string()
    );
    let received = [5u8, 0, 5, 0, 0, 3, 3, b'a', 0xff, b'b', 0, 80];
    let failure = Failure { received: &received, ..failure };
    assert_eq!(
        ConnectError::AgentUnavailable(AgentFault::Reply(PacketError::HostEncoding))
            .to_text(failure),
        String::from_utf8(vec![b'a', 0xff, b'b']).unwrap_err().to_string()
    );
}

#[test]
fn only_some_connections_are_set_up() {
    assert_eq!(setup_error(Route::Direct), Some(ConnectError::Target(TargetFault::Setup)));
    assert_eq!(
        setup_error(Route::Request),
        Some(ConnectError::AgentUnavailable(AgentFault::Io))
    );
    assert_eq!(setup_error(Route::Open), None);
}

#[test]
fn the_link_decides_the_way() {
    assert_eq!(link_route(Some(2), true), Route::Open);
    assert_eq!(link_route(Some(1), true), Route::Request);
    assert_eq!(link_route(None, true), Route::Offline);
    assert_eq!(link_route(None, false), Route::Direct);
}

#[test]
fn plain_targets_come_back_as_they_are() {
    for target in ["192.0.2.1:80", "example.com:443", "a:0", "255.255.255.255:65535"] {
        let packet = build_connect_packet(target).unwrap();
        assert!(matches!(
            read_packet(&packet),
            Progress::Done { value: (1, read), .. } if read == target
        ));
    }
    let packet = build_connect_packet("example.com:+080").unwrap();
    assert!(matches!(
        read_packet(&packet),
        Progress::Done { value: (1, read), .. } if read == "example.com:80"
    ));
}

#[test]
fn clients_that_do_wrong_are_complained_of() {
    let client = |user: Option<&str>, phase| SocksClient {
        peer: None,
        user: user.map(String::from),
        password: user.map(String::from),
        limit_reached: false,
        phase,
    };
    let greeting = Phase::Greeting { sent: 0 };
    let complaint = |user, phase, b: &[u8]| client(user, phase).complaint(b);
    assert_eq!(complaint(None, greeting, &[5]), None);
    assert_eq!(
        complaint(None, greeting, &[4, 1, 0]),
        Some("Unsupported SOCKS version: 4".to_string())
    );
    assert_eq!(
        complaint(None, greeting, &[5, 1, 2]),
        Some("Client requires auth but server has none".to_string())
    );
    assert_eq!(
        complaint(Some("u"), greeting, &[5, 1, 0]),
        Some("Client does not support password auth".to_string())
    );
    assert_eq!(
        complaint(Some("u"), greeting, &[5, 1, 2, 2, 0]),
        Some("Invalid SOCKS Auth sub-negotiation version".to_string())
    );
    assert_eq!(
        complaint(Some("u"), greeting, &[5, 1, 2, 1, 1, b'u', 1, b'x']),
        Some("Invalid SOCKS credentials".to_string())
    );
    let failed = Some("Read request failed".to_string());
    assert_eq!(complaint(None, greeting, &[5, 1, 0, 4, 1, 0, 1]), failed);
    assert_eq!(complaint(None, Phase::Request { start: 3 }, &[5, 1, 0, 5, 1, 0, 9]), failed);
    assert_eq!(
        complaint(None, Phase::Request { start: 0 }, &[5, 9, 0, 1, 1, 2, 3, 4, 0, 5]),
        None
    );
}
