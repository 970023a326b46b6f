use rust_proxy::address_text::{parse_ip, parse_socket};
use rust_proxy::net::{IpAddr, SocketAddr};
use rust_proxy::progress::Progress;
use rust_proxy::security::{is_blacklisted, SecurityManager};
use rust_proxy::socks5::open::{OpenAction, OpenEvent, OpenTarget, Route};
use rust_proxy::tunnel::agent::{
    blocked_egress, next_backoff, normalize_server_addr, open_status, read_command,
    reconnect_delay, send_device_status, write_hello, write_request_hello, write_token_hello,
    DialPlan, DialStep, Reports, ServerCommand, RECONNECT_MAX_DELAY, RECONNECT_MIN_DELAY,
};
use rust_proxy::tunnel::agent_session::{AgentSession, SessionAction, SessionEvent};
use rust_proxy::tunnel::api_request::api_client_ip;
use rust_proxy::tunnel::control::{
    check_agent, connection_kind, disconnect_agent, discard_control_bytes, encode_command, is_idle,
    preserves_resetting_agent, proxy_kind, read_agent_message, read_hello, register_agent,
    AgentMessage, ConnectionKind, Dialled, HelloError, ProxyKind, Registration, UsageStart,
    AGENT_IDLE_TIMEOUT, CMD_PING, V2_STATUS_BLOCKED, V2_STATUS_OK, V2_STATUS_UNREACHABLE,
};
use rust_proxy::tunnel::control_session::{ControlAction, ControlEvent, ControlSession};
use rust_proxy::tunnel::data::{
    admit_client, advance_open, claim_request, claim_token, is_resetting, open_result,
    read_data_hello, read_token_hello, Claim,
};
use rust_proxy::tunnel::device::{
    check_device_status, device_status_json, record_agent_status, record_device_status, StatusError,
    STATUS_MIN_INTERVAL, STATUS_REFRESH_INTERVAL,
};
use rust_proxy::tunnel::gone::GoneConnections;
use rust_proxy::tunnel::{
    api_bind_addr, is_socks_port, no_agents, no_totals, AgentRegistry, DeviceStatus,
    SOCKS_PORT_MAX, SOCKS_PORT_MIN,
};
use rust_proxy::tunnel_common::{count, TunnelCmd};

fn ip(text: &str) -> IpAddr {
    let chars: Vec<char> = text.chars().collect();
    parse_ip(&chars).unwrap()
}

fn socket(text: &str) -> SocketAddr {
    let chars: Vec<char> = text.chars().collect();
    parse_socket(&chars).unwrap()
}

fn dialled(control: u64, addr: &str, protocol_version: u8) -> Dialled {
    Dialled { control, addr: socket(addr), protocol_version, os_type: Some(1), counter: control }
}

fn register(agents: &mut AgentRegistry, name: &str, dialled: Dialled) -> Registration {
    register_agent(agents, &mut GoneConnections::new(), &no_totals(), name, dialled, Some([7; 32]), 0).unwrap()
}

/// The number of a JSON value, which has to be one that fits.
fn small(value: &serde_json::Value) -> Result<u8, ()> {
    value.as_u64().and_then(|n| u8::try_from(n).ok()).ok_or(())
}

fn text(value: &serde_json::Value) -> Result<String, ()> {
    value.as_str().map(String::from).ok_or(())
}

fn parse_device_status(payload: &[u8]) -> Result<DeviceStatus, ()> {
    let json: serde_json::Value = serde_json::from_slice(payload).map_err(|_| ())?;
    let status = DeviceStatus {
        carrier: text(&json["carrier"])?,
        net: text(&json["net"])?,
        signal: small(&json["signal"])?,
        battery: small(&json["battery"])?,
        temp_c_bits: (json["temp_c"].as_f64().ok_or(())? as f32).to_bits(),
        charging: json["charging"].as_bool().ok_or(())?,
        health: text(&json["health"])?,
        app: text(&json["app"])?,
        proto: small(&json["proto"])?,
        assistant: json["assistant"].as_bool().ok_or(())?,
        transport: text(&json["transport"])?,
    };
    match check_device_status(&status) {
        None => Ok(status),
        Some(_) => Err(()),
    }
}

fn status() -> DeviceStatus {
    DeviceStatus {
        carrier: "carrier".to_string(),
        net: "LTE".to_string(),
        signal: 4,
        battery: 50,
        temp_c_bits: 30.0f32.to_bits(),
        charging: false,
        health: "good".to_string(),
        app: "1.0".to_string(),
        proto: 2,
        assistant: true,
        transport: "cellular".to_string(),
    }
}

#[test]
fn socks_port_range_is_inclusive() {
    assert!(!is_socks_port(SOCKS_PORT_MIN - 1));
    assert!(is_socks_port(SOCKS_PORT_MIN));
    assert!(is_socks_port(SOCKS_PORT_MAX));
    assert!(!is_socks_port(SOCKS_PORT_MAX + 1));
}

#[test]
fn api_client_ip_trusts_forwarding_headers_only_from_private_peers() {
    let proxy: IpAddr = ip("172.18.0.2");
    let public: IpAddr = ip("203.0.113.9");
    assert_eq!(api_client_ip(proxy, Some("1.2.3.4"), Some("9.9.9.9, 5.6.7.8")), "1.2.3.4");
    assert_eq!(api_client_ip(proxy, None, Some("9.9.9.9, 5.6.7.8")), "5.6.7.8");
    assert_eq!(api_client_ip(proxy, Some("garbage"), None), "172.18.0.2");
    assert_eq!(api_client_ip(proxy, None, None), "172.18.0.2");
    assert_eq!(api_client_ip(public, Some("1.2.3.4"), Some("5.6.7.8")), "203.0.113.9");
}

#[test]
fn api_bind_defaults_private_and_allows_the_container_proxy() {
    assert_eq!(api_bind_addr(8081, false), "127.0.0.1:8081");
    assert_eq!(api_bind_addr(8081, true), "0.0.0.0:8081");
}

#[test]
fn reconnect_delay_has_bounded_jitter() {
    let base = 4_000;
    assert_eq!(reconnect_delay(base, 0), base);
    assert!(reconnect_delay(base, u32::MAX) <= base + 1_000);
}

#[test]
fn disconnect_keeps_only_a_resetting_current_agent() {
    let current: SocketAddr = socket("192.0.2.10:8080");
    let other: SocketAddr = socket("192.0.2.11:8080");
    assert!(preserves_resetting_agent(current, current, true));
    assert!(!preserves_resetting_agent(current, current, false));
    assert!(!preserves_resetting_agent(current, other, true));
}

#[test]
fn v2_egress_filter_blocks_private_ranges_and_smtp() {
    for address in [
        "127.0.0.1:443",
        "10.0.0.1:443",
        "169.254.1.1:443",
        "100.64.0.1:443",
        "[::1]:443",
        "[::ffff:127.0.0.1]:443",
        "203.0.113.1:25",
    ] {
        assert!(blocked_egress(socket(address)), "{address}");
    }
    assert!(!blocked_egress(socket("203.0.113.1:443")));
}

#[test]
fn mapped_addresses_are_blocked_as_they_are_unmapped() {
    for address in ["10.1.2.3", "203.0.113.1", "0.0.0.0", "0.0.0.1", "255.255.255.255"] {
        for port in [25, 443] {
            let plain = socket(&format!("{address}:{port}"));
            let mapped = socket(&format!("[::ffff:{address}]:{port}"));
            assert_eq!(blocked_egress(plain), blocked_egress(mapped), "{address}:{port}");
        }
    }
    assert!(!blocked_egress(socket("0.0.0.1:443")));
    assert!(blocked_egress(socket("[::0.0.0.1]:443")));
}

#[test]
fn device_status_rejects_invalid_fields() {
    let valid = br#"{"carrier":"carrier","net":"LTE","signal":4,"battery":50,"temp_c":30.0,"charging":false,"health":"good","app":"1.0","proto":2,"assistant":true,"transport":"cellular"}"#;
    assert!(parse_device_status(valid).is_ok());
    assert!(parse_device_status(&valid[..20]).is_err());
    assert!(parse_device_status(br#"{"carrier":"carrier","net":"LTE","signal":5,"battery":50,"temp_c":30.0,"charging":false,"health":"good","app":"1.0","proto":2,"assistant":true,"transport":"cellular"}"#).is_err());
}

#[test]
fn every_field_of_a_report_is_checked() {
    assert_eq!(check_device_status(&status()), None);
    let fault = |change: fn(&mut DeviceStatus)| {
        let mut status = status();
        change(&mut status);
        check_device_status(&status)
    };
    assert_eq!(fault(|s| s.signal = 5), Some(StatusError::Signal));
    assert_eq!(fault(|s| s.battery = 101), Some(StatusError::Battery));
    assert_eq!(fault(|s| s.temp_c_bits = 150.0f32.to_bits()), None);
    assert_eq!(fault(|s| s.temp_c_bits = (-100.0f32).to_bits()), None);
    assert_eq!(fault(|s| s.temp_c_bits = (-0.0f32).to_bits()), None);
    for hot in [150.1f32, -100.1, f32::NAN, f32::INFINITY, f32::NEG_INFINITY] {
        let mut status = status();
        status.temp_c_bits = hot.to_bits();
        assert_eq!(check_device_status(&status), Some(StatusError::Temperature), "{hot}");
    }
    assert_eq!(fault(|s| s.proto = 1), Some(StatusError::Proto));
    assert_eq!(fault(|s| s.transport = "mail".to_string()), Some(StatusError::Transport));
    assert_eq!(fault(|s| s.transport = "wifi".to_string()), None);
    assert_eq!(fault(|s| s.carrier = "x".repeat(129)), Some(StatusError::TooLong));
    assert_eq!(fault(|s| s.net = "x".repeat(33)), Some(StatusError::TooLong));
    assert_eq!(fault(|s| s.health = "x".repeat(33)), Some(StatusError::TooLong));
    assert_eq!(fault(|s| s.app = "\u{e9}".repeat(33)), Some(StatusError::TooLong));
    assert_eq!(fault(|s| s.app = "\u{e9}".repeat(32)), None);
}

#[test]
fn reports_are_taken_at_most_every_ten_seconds() {
    let mut device = None;
    assert_eq!(record_device_status(&mut device, status(), 5, 100), Ok(true));
    assert_eq!(
        record_device_status(&mut device, status(), 5 + STATUS_MIN_INTERVAL - 1, 109),
        Ok(false)
    );
    assert_eq!(device.as_ref().unwrap().received_at, 100);
    assert_eq!(
        record_device_status(&mut device, status(), 5 + STATUS_MIN_INTERVAL, 110),
        Ok(true)
    );
    assert_eq!(device.as_ref().unwrap().received_at, 110);
    let mut bad = status();
    bad.proto = 1;
    assert_eq!(
        record_device_status(&mut device, bad, 5 + 3 * STATUS_MIN_INTERVAL, 130),
        Err(StatusError::Proto)
    );
    assert_eq!(device.as_ref().unwrap().received_at, 110);
}

#[test]
fn connections_are_told_apart_by_their_first_byte() {
    assert_eq!(connection_kind(0x00), ConnectionKind::Control);
    assert_eq!(connection_kind(0x01), ConnectionKind::Data);
    assert_eq!(connection_kind(0x02), ConnectionKind::TokenData);
    assert_eq!(connection_kind(0x16), ConnectionKind::TlsControl);
    assert_eq!(connection_kind(0x47), ConnectionKind::Unknown);
    assert_eq!(proxy_kind(0x05), ProxyKind::Socks);
    assert_eq!(proxy_kind(b'G'), ProxyKind::Http);
    assert_eq!(proxy_kind(b'z'), ProxyKind::Http);
    assert_eq!(proxy_kind(0x04), ProxyKind::Neither);
}

#[test]
fn the_server_reads_what_agents_write() {
    let hello = write_hello(1, "phone", Some("secret"), true);
    assert_eq!(hello[0], 0x00);
    match read_hello(&hello[1..]) {
        Progress::Done { value: (name, password), used } => {
            assert_eq!(name, "phone");
            assert_eq!(password, "secret");
            assert_eq!(hello[1 + used..], [1]);
        }
        _ => panic!("the greeting was not read"),
    }
    let hello = write_hello(2, "phone", None, false);
    assert_eq!(hello, [&[5u8][..], b"phone", &[0, 0]].concat());
    assert!(matches!(read_hello(&[1, 0xff, 0]), Progress::Failed(HelloError::NameEncoding)));
    assert!(matches!(
        read_hello(&[1, b'a', 1, 0xff]),
        Progress::Failed(HelloError::PasswordEncoding)
    ));
    assert!(matches!(read_hello(&[3, b'a']), Progress::More(2)));

    let hello = write_request_hello("phone", 0x01020304);
    assert_eq!(hello[0], 0x01);
    match read_data_hello(&hello[1..]) {
        Progress::Done { value: (name, id), .. } => {
            assert_eq!(name, "phone");
            assert_eq!(id, 0x01020304);
        }
        _ => panic!("the greeting was not read"),
    }
    assert!(matches!(read_data_hello(&[1, 0xff, 0, 0, 0, 0]), Progress::Failed(())));

    let hello = write_token_hello(&[9; 16], V2_STATUS_BLOCKED);
    assert_eq!(hello[0], 0x02);
    match read_token_hello(&hello[1..]) {
        Progress::Done { value, used } => {
            assert_eq!(value, ([9; 16], V2_STATUS_BLOCKED));
            assert_eq!(used, 17);
        }
        _ => panic!("the greeting was not read"),
    }
}

#[test]
fn agents_read_what_the_server_writes() {
    let command = encode_command(1, &TunnelCmd::RequireConn(0xa1b2c3d4)).unwrap();
    assert_eq!(command, vec![0x01, 0xa1, 0xb2, 0xc3, 0xd4]);
    assert!(matches!(
        read_command(&command, 1),
        Progress::Done { value: ServerCommand::Require(0xa1b2c3d4), used: 5 }
    ));
    let target = rust_proxy::socks5::encode_target_address("example.com:443").unwrap();
    let command = encode_command(2, &TunnelCmd::Open { token: [4; 16], target }).unwrap();
    match read_command(&command, 2) {
        Progress::Done { value: ServerCommand::Open(token, target), .. } => {
            assert_eq!(token, [4; 16]);
            assert_eq!(target, "example.com:443");
        }
        _ => panic!("the command was not read"),
    }
    assert_eq!(encode_command(2, &TunnelCmd::RequireConn(1)), None);
    let open = TunnelCmd::Open { token: [4; 16], target: vec![] };
    assert_eq!(encode_command(1, &open), None);
    assert_eq!(encode_command(1, &TunnelCmd::UdpSession(51300)), Some(vec![3, 200, 100]));
    assert_eq!(encode_command(2, &TunnelCmd::ResetIp), Some(vec![4]));
    assert!(matches!(
        read_command(&[4], 1),
        Progress::Done { value: ServerCommand::Reset, used: 1 }
    ));
    assert!(matches!(
        read_command(&[6], 2),
        Progress::Done { value: ServerCommand::Ping, used: 1 }
    ));
    assert!(matches!(
        read_command(&[0x77], 2),
        Progress::Done { value: ServerCommand::Unknown(0x77), used: 1 }
    ));
    assert!(matches!(read_command(&[3, 200], 1), Progress::More(1)));
}

#[test]
fn the_server_reads_reports() {
    let frame = send_device_status("{}").unwrap();
    assert_eq!(frame, vec![0x11, 0, 2, b'{', b'}']);
    match read_agent_message(&frame, 2) {
        Progress::Done { value: AgentMessage::Status(payload), used } => {
            assert_eq!(payload, b"{}".to_vec());
            assert_eq!(used, 5);
        }
        _ => panic!("the report was not read"),
    }
    assert_eq!(send_device_status(&"x".repeat(1025)), None);
    assert!(matches!(
        read_agent_message(&[0x11, 4, 1], 2),
        Progress::Done { value: AgentMessage::Oversized(1025), used: 3 }
    ));
    assert!(matches!(
        read_agent_message(&[CMD_PING], 1),
        Progress::Done { value: AgentMessage::Ping, used: 1 }
    ));
    assert!(matches!(
        read_agent_message(&[0x11], 1),
        Progress::Done { value: AgentMessage::Unknown(0x11), used: 1 }
    ));
    assert_eq!(discard_control_bytes(1025), 1024);
    assert_eq!(discard_control_bytes(1), 1);
    assert!(!is_idle(10, 10 + AGENT_IDLE_TIMEOUT));
    assert!(is_idle(10, 11 + AGENT_IDLE_TIMEOUT));
}

#[test]
fn agents_are_let_in_by_password() {
    let mut sm = SecurityManager::new();
    let peer = ip("198.51.100.7");
    assert!(check_agent(&mut sm, None, "anything", peer, 0));
    assert!(check_agent(&mut sm, Some("secret"), "secret", peer, 0));
    for _ in 0..10 {
        assert!(!check_agent(&mut sm, Some("secret"), "guess", peer, 0));
    }
    assert!(is_blacklisted(&mut sm, "198.51.100.7", 0));
}

#[test]
fn an_agent_that_returns_keeps_its_counter_and_token() {
    let mut agents = no_agents();
    let mut totals = no_totals();
    totals.insert("phone".to_string(), 500);
    let first = register_agent(
        &mut agents,
        &mut GoneConnections::new(),
        &totals,
        "phone",
        dialled(1, "192.0.2.1:1000", 2),
        Some([7; 32]),
        0,
    )
    .unwrap();
    assert!(matches!(first.usage, UsageStart::Fresh(500)));
    assert_eq!(first.replaced, None);
    assert!(first.answer.is_none());
    assert_eq!(agents.get("phone").unwrap().reset_token, "07".repeat(32));

    let second = register_agent(
        &mut agents,
        &mut GoneConnections::new(),
        &totals,
        "phone",
        dialled(2, "192.0.2.2:1000", 2),
        None,
        0,
    )
    .unwrap();
    assert!(matches!(second.usage, UsageStart::Continue(1)));
    assert_eq!(second.replaced, Some(1));
    assert_eq!(agents.get("phone").unwrap().reset_token, "07".repeat(32));
    assert_eq!(agents.get("phone").unwrap().control, 2);

    assert!(register_agent(
        &mut agents,
        &mut GoneConnections::new(),
        &totals,
        "other",
        dialled(3, "192.0.2.3:1000", 2),
        None,
        0
    )
    .is_none());
    assert!(agents.get("other").is_none());
}

#[test]
fn disconnecting_keeps_the_total_and_drops_the_entry() {
    let mut agents = no_agents();
    let mut totals = no_totals();
    register(&mut agents, "phone", dialled(1, "192.0.2.1:1000", 1));
    disconnect_agent(&mut agents, &mut GoneConnections::new(), &mut totals, "phone", 1, socket("192.0.2.1:1000"), 900);
    assert!(agents.is_empty());
    assert_eq!(*totals.get("phone").unwrap(), 900);

    register(&mut agents, "phone", dialled(2, "192.0.2.2:1000", 1));
    disconnect_agent(&mut agents, &mut GoneConnections::new(), &mut totals, "phone", 1, socket("192.0.2.1:1000"), 800);
    assert_eq!(agents.len(), 1);
    assert_eq!(*totals.get("phone").unwrap(), 900);
}

#[test]
fn data_connections_find_their_waiters() {
    let mut agents = no_agents();
    register(&mut agents, "phone", dialled(1, "192.0.2.1:1000", 1));
    let mut attempt = OpenTarget::new("a:1".to_string(), Route::Request, 70);
    let mut bytes = [0u8; 32];
    bytes[3] = 5;
    advance_open(
        &mut agents,
        &mut GoneConnections::new(),
        "phone",
        1,
        &mut attempt,
        OpenEvent::Begin { resetting: false },
    );
    let action = advance_open(
        &mut agents,
        &mut GoneConnections::new(),
        "phone",
        1,
        &mut attempt,
        OpenEvent::Random { bytes: Some(bytes), resetting: false },
    );
    assert!(matches!(action, OpenAction::Send(TunnelCmd::RequireConn(5))));
    assert_eq!(claim_request(&mut agents, "phone", 6), Claim::UnknownRequest);
    assert_eq!(claim_request(&mut agents, "tablet", 5), Claim::UnknownAgent);
    assert_eq!(claim_request(&mut agents, "phone", 5), Claim::Waiter(70));
    assert_eq!(claim_request(&mut agents, "phone", 5), Claim::UnknownRequest);
}

#[test]
fn tokens_find_their_waiters_at_any_agent() {
    let mut agents = no_agents();
    register(&mut agents, "one", dialled(1, "192.0.2.1:1000", 2));
    register(&mut agents, "two", dialled(2, "192.0.2.2:1000", 2));
    let mut attempt = OpenTarget::new("a:1".to_string(), Route::Open, 71);
    advance_open(
        &mut agents,
        &mut GoneConnections::new(),
        "two",
        2,
        &mut attempt,
        OpenEvent::Begin { resetting: false },
    );
    let action = advance_open(
        &mut agents,
        &mut GoneConnections::new(),
        "two",
        2,
        &mut attempt,
        OpenEvent::Random { bytes: Some([8; 32]), resetting: false },
    );
    assert!(matches!(action, OpenAction::Send(TunnelCmd::Open { .. })));
    assert_eq!(claim_token(&mut agents, &[1; 16]), None);
    assert_eq!(claim_token(&mut agents, &[8; 16]), Some(71));
    assert_eq!(claim_token(&mut agents, &[8; 16]), None);
}

/// Begins an attempt through a connection, and draws these bytes for it.
fn draw(
    agents: &mut AgentRegistry,
    gone: &mut GoneConnections,
    control: u64,
    route: Route,
    waiter: u64,
    bytes: [u8; 32],
) -> OpenAction {
    let mut attempt = OpenTarget::new("a:1".to_string(), route, waiter);
    let begin = OpenEvent::Begin { resetting: false };
    advance_open(agents, gone, "phone", control, &mut attempt, begin);
    let random = OpenEvent::Random { bytes: Some(bytes), resetting: false };
    advance_open(agents, gone, "phone", control, &mut attempt, random)
}

#[test]
fn who_waits_at_a_replaced_connection_waits_there() {
    let mut agents = no_agents();
    let mut gone = GoneConnections::new();
    let totals = no_totals();
    let first = dialled(1, "192.0.2.1:1000", 1);
    register_agent(&mut agents, &mut gone, &totals, "phone", first, Some([7; 32]), 0).unwrap();
    let action = draw(&mut agents, &mut gone, 1, Route::Request, 70, [8; 32]);
    assert!(matches!(action, OpenAction::Send(TunnelCmd::RequireConn(0x08080808))));

    let second = dialled(2, "192.0.2.2:1000", 1);
    register_agent(&mut agents, &mut gone, &totals, "phone", second, None, 0).unwrap();
    assert_eq!(claim_request(&mut agents, "phone", 0x08080808), Claim::UnknownRequest);
    assert!(matches!(
        draw(&mut agents, &mut gone, 1, Route::Request, 71, [8; 32]),
        OpenAction::Draw
    ));
    assert!(matches!(
        draw(&mut agents, &mut gone, 2, Route::Request, 72, [8; 32]),
        OpenAction::Send(TunnelCmd::RequireConn(_))
    ));
    assert_eq!(claim_request(&mut agents, "phone", 0x08080808), Claim::Waiter(72));

    let mut totals = no_totals();
    let addr = socket("192.0.2.1:1000");
    disconnect_agent(&mut agents, &mut gone, &mut totals, "phone", 1, addr, 0);
    assert_eq!(agents.len(), 1);
    assert!(matches!(
        draw(&mut agents, &mut gone, 1, Route::Request, 73, [8; 32]),
        OpenAction::Send(TunnelCmd::RequireConn(_))
    ));
}

#[test]
fn tokens_of_a_replaced_connection_are_not_found() {
    let mut agents = no_agents();
    let mut gone = GoneConnections::new();
    register(&mut agents, "phone", dialled(2, "192.0.2.1:1000", 2));
    draw(&mut agents, &mut gone, 1, Route::Open, 71, [8; 32]);
    assert_eq!(claim_token(&mut agents, &[8; 16]), None);
    gone.forget(1);
    assert!(gone.take(1).is_none());
}

#[test]
fn statuses_of_data_connections() {
    assert_eq!(open_result(V2_STATUS_OK), Ok(()));
    assert_eq!(open_result(V2_STATUS_BLOCKED), Err(V2_STATUS_BLOCKED));
    assert_eq!(open_result(V2_STATUS_UNREACHABLE), Err(V2_STATUS_UNREACHABLE));
    assert_eq!(open_result(0x55), Err(V2_STATUS_UNREACHABLE));
    assert_eq!(open_status(Some(Ok(()))), V2_STATUS_OK);
    assert_eq!(open_status(Some(Err(V2_STATUS_BLOCKED))), V2_STATUS_BLOCKED);
    assert_eq!(open_status(None), V2_STATUS_UNREACHABLE);
}

#[test]
fn clients_are_admitted_to_connected_agents() {
    let mut agents = no_agents();
    register(&mut agents, "phone", dialled(1, "192.0.2.1:1000", 2));
    let admission = admit_client(&mut agents, "phone", true);
    assert!(!admission.limit_reached);
    let agent = admission.agent.unwrap();
    assert_eq!((agent.control, agent.protocol_version, agent.usage), (1, 2, 1));
    assert!(admit_client(&mut agents, "phone", false).limit_reached);
    assert!(admit_client(&mut agents, "phone", false).agent.is_none());
    assert!(admit_client(&mut agents, "tablet", true).agent.is_none());
    assert!(!is_resetting(&mut agents, &mut GoneConnections::new(), "phone", 1));
}

#[test]
fn ports_follow_an_agent_that_dials_again() {
    let mut agents = no_agents();
    register(&mut agents, "phone", dialled(1, "192.0.2.1:1000", 1));
    register(&mut agents, "tablet", dialled(2, "192.0.2.2:1000", 2));
    let tablet = admit_client(&mut agents, "tablet", true);
    register(&mut agents, "phone", dialled(3, "192.0.2.3:1000", 2));
    let agent = admit_client(&mut agents, "phone", true).agent.unwrap();
    assert_eq!((agent.control, agent.protocol_version), (3, 2));
    assert_eq!(admit_client(&mut agents, "tablet", true), tablet);
}

#[test]
fn reports_are_kept_with_their_connection() {
    let mut agents = no_agents();
    register(&mut agents, "phone", dialled(1, "192.0.2.1:1000", 2));
    assert_eq!(record_agent_status(&mut agents, "phone", 9, status(), 0, 100), None);
    assert_eq!(record_agent_status(&mut agents, "phone", 1, status(), 0, 100), Some(Ok(true)));
    assert_eq!(record_agent_status(&mut agents, "phone", 1, status(), 1, 101), Some(Ok(false)));
    let entry = agents.get("phone").unwrap();
    assert_eq!(entry.device.as_ref().unwrap().device.carrier, "carrier");
}

#[test]
fn changed_reports_are_sent_and_old_ones_refreshed() {
    let (mut reports, frame) = Reports::begin(Some("a".to_string()), 0);
    assert_eq!(frame, send_device_status("a"));
    assert_eq!(reports.report("a".to_string(), 1), None);
    assert_eq!(reports.report("b".to_string(), 2), send_device_status("b"));
    assert_eq!(
        reports.report("b".to_string(), 2 + STATUS_REFRESH_INTERVAL),
        send_device_status("b")
    );
    assert_eq!(reports.report("x".repeat(2000), 3 + STATUS_REFRESH_INTERVAL), None);
}

#[test]
fn server_addresses_are_completed() {
    assert_eq!(normalize_server_addr("http://proxy.example/"), "proxy.example:8080");
    assert_eq!(normalize_server_addr("https://proxy.example:9000"), "proxy.example:9000");
    assert_eq!(normalize_server_addr("192.0.2.1"), "192.0.2.1:8080");
}

#[test]
fn blocked_targets_are_skipped() {
    let mut plan = DialPlan::new(Some(vec![
        socket("10.0.0.1:80"),
        socket("203.0.113.1:80"),
        socket("203.0.113.2:80"),
    ]));
    assert!(matches!(plan.connect_v2_target(), DialStep::Try(a) if a == socket("203.0.113.1:80")));
    assert!(matches!(plan.connect_v2_target(), DialStep::Try(a) if a == socket("203.0.113.2:80")));
    assert!(matches!(plan.connect_v2_target(), DialStep::Fail(V2_STATUS_BLOCKED)));
    let mut plan = DialPlan::new(None);
    assert!(matches!(plan.connect_v2_target(), DialStep::Fail(V2_STATUS_UNREACHABLE)));
}

#[test]
fn waiting_times_grow_to_their_limit() {
    let mut backoff = RECONNECT_MIN_DELAY;
    let mut seen = vec![backoff];
    for _ in 0..6 {
        backoff = next_backoff(backoff);
        seen.push(backoff);
    }
    assert_eq!(seen, vec![1_000, 2_000, 4_000, 8_000, 16_000, 30_000, 30_000]);
    assert_eq!(*seen.last().unwrap(), RECONNECT_MAX_DELAY);
    assert_eq!(reconnect_delay(4_000, 1_001), 4_000);
    assert_eq!(reconnect_delay(4_000, 1_000), 5_000);
    assert_eq!(reconnect_delay(1, 3), 2);
}

#[test]
fn traffic_is_counted_round_the_clock() {
    assert_eq!(count(5, 7), 12);
    assert_eq!(count(u64::MAX, 1), 0);
}

#[test]
fn a_control_connection_is_served() {
    let mut session = ControlSession::new(2, 0);
    let mut step = |event, now| session.handle_control_connection(event, now);
    assert!(matches!(step(ControlEvent::Tick, AGENT_IDLE_TIMEOUT), ControlAction::Wait));
    match step(ControlEvent::Command(TunnelCmd::ResetIp), 1) {
        ControlAction::Send(bytes) => assert_eq!(bytes, vec![4]),
        action => panic!("not sent: {action:?}"),
    }
    assert!(matches!(
        step(ControlEvent::Command(TunnelCmd::RequireConn(1)), 1),
        ControlAction::Wait
    ));
    match step(ControlEvent::Received(vec![CMD_PING]), 50) {
        ControlAction::Pong(bytes) => assert_eq!(bytes, vec![CMD_PING]),
        action => panic!("not answered: {action:?}"),
    }
    assert!(matches!(step(ControlEvent::Received(vec![0x77]), 60), ControlAction::Unknown(0x77)));
    assert!(matches!(step(ControlEvent::Received(vec![0x11]), 70), ControlAction::Fetch(2)));
    assert!(matches!(step(ControlEvent::Received(vec![0, 3]), 80), ControlAction::Fetch(3)));
    match step(ControlEvent::Received(b"abc".to_vec()), 90) {
        ControlAction::Record(payload) => assert_eq!(payload, b"abc".to_vec()),
        action => panic!("not taken: {action:?}"),
    }
    assert!(matches!(step(ControlEvent::Received(vec![0x11]), 100), ControlAction::Fetch(2)));
    assert!(matches!(
        step(ControlEvent::Received(vec![4, 5]), 101),
        ControlAction::Fetch(1024)
    ));
    assert!(matches!(
        step(ControlEvent::Received(vec![0; 1024]), 102),
        ControlAction::Fetch(5)
    ));
    assert!(matches!(step(ControlEvent::Received(vec![0; 5]), 103), ControlAction::Wait));
    assert!(matches!(
        step(ControlEvent::Tick, 100 + AGENT_IDLE_TIMEOUT),
        ControlAction::Wait
    ));
    assert!(matches!(
        step(ControlEvent::Tick, 101 + AGENT_IDLE_TIMEOUT),
        ControlAction::End
    ));
    assert!(matches!(step(ControlEvent::Received(vec![CMD_PING]), 0), ControlAction::End));
    for event in [ControlEvent::Closed, ControlEvent::NotSent, ControlEvent::ChannelClosed] {
        let mut session = ControlSession::new(1, 0);
        assert!(matches!(
            session.handle_control_connection(event, 0),
            ControlAction::End
        ));
    }
}

#[test]
fn an_agent_serves_its_connection() {
    let (mut session, first) = AgentSession::new(2, Some("a".to_string()), 0);
    assert_eq!(first, send_device_status("a"));
    let mut step = |event, now| session.run_agent_session(event, now);
    match step(SessionEvent::PingDue, 5) {
        SessionAction::Ping(bytes) => assert_eq!(bytes, vec![CMD_PING]),
        action => panic!("no ping: {action:?}"),
    }
    assert!(matches!(
        step(SessionEvent::ReportDue(Some("a".to_string())), 6),
        SessionAction::Wait
    ));
    assert!(matches!(
        step(SessionEvent::ReportDue(Some("b".to_string())), 7),
        SessionAction::Report(_)
    ));
    assert!(matches!(step(SessionEvent::ReportDue(None), 8), SessionAction::Wait));
    assert!(matches!(step(SessionEvent::Received(vec![3]), 9), SessionAction::Fetch(2)));
    assert!(matches!(
        step(SessionEvent::Received(vec![200, 100]), 10),
        SessionAction::Start(ServerCommand::Udp(51300))
    ));
    assert!(matches!(
        step(SessionEvent::Received(vec![CMD_PING]), 100),
        SessionAction::Wait
    ));
    assert!(matches!(
        step(SessionEvent::PingDue, 100 + AGENT_IDLE_TIMEOUT),
        SessionAction::Ping(_)
    ));
    assert!(matches!(
        step(SessionEvent::PingDue, 101 + AGENT_IDLE_TIMEOUT),
        SessionAction::End { stopped: false }
    ));
    assert!(matches!(step(SessionEvent::Stop, 0), SessionAction::End { stopped: true }));
    assert!(matches!(
        step(SessionEvent::PingTimedOut, 0),
        SessionAction::End { stopped: false }
    ));
    assert!(matches!(step(SessionEvent::Closed, 0), SessionAction::End { stopped: false }));
    let bad = [&[0x10u8][..], &[0; 16], &[9]].concat();
    assert!(matches!(
        step(SessionEvent::Received(bad), 0),
        SessionAction::End { stopped: false }
    ));
    let (_, first) = AgentSession::new(1, Some("a".to_string()), 0);
    assert_eq!(first, None);
}

#[test]
fn agents_that_are_no_phones_report_a_fixture() {
    let report = device_status_json("1.2.3", serde_json::Value::from(25.0));
    let status = parse_device_status(report.as_bytes()).unwrap();
    assert_eq!(status.carrier, "PC fixture");
    assert_eq!(status.app, "1.2.3");
    assert_eq!(status.proto, 2);
    assert_eq!(status.temp_c_bits, 25.0f32.to_bits());
    assert!(status.charging);
    assert!(!status.assistant);
}
