use rust_proxy::address_text::parse_socket;
use rust_proxy::net::SocketAddr;
use rust_proxy::progress::Progress;
use rust_proxy::tunnel::agent_udp::{
    handle_agent_udp_datagram, is_session_over, resolved, AgentUdpAction, DnsCache,
    AGENT_UDP_IDLE_TIMEOUT, DNS_CACHE_TTL,
};
use rust_proxy::udp::{
    frame, handle_tunneled_udp, handle_udp_associate, parse_header, read_tunnel_packet,
    write_tunnel_frame, HeaderError, UdpAction, UdpTarget,
};

fn socket(text: &str) -> SocketAddr {
    let chars: Vec<char> = text.chars().collect();
    parse_socket(&chars).unwrap()
}

#[test]
fn headers_name_their_targets() {
    match parse_header(&[1, 192, 0, 2, 1, 0, 53, 9]) {
        Ok((7, UdpTarget::Addr(addr))) => assert_eq!(addr, socket("192.0.2.1:53")),
        _ => panic!("the header was not read"),
    }
    let named = [&[3u8, 3][..], b"dns", &[0, 53]].concat();
    match parse_header(&named) {
        Ok((7, UdpTarget::Name(name))) => assert_eq!(name, "dns:53"),
        _ => panic!("the header was not read"),
    }
    assert!(matches!(parse_header(&[1, 1, 1]), Err(HeaderError::TooShort)));
    assert!(matches!(parse_header(&[3, 9, 1]), Err(HeaderError::TooShort)));
    assert!(matches!(parse_header(&[4]), Err(HeaderError::Ipv6)));
    assert!(matches!(parse_header(&[7]), Err(HeaderError::AddressType(7))));
    match parse_header(&[3, 1, 0xff, 0, 53]) {
        Ok((_, UdpTarget::Name(name))) => assert_eq!(name, "\u{fffd}:53"),
        _ => panic!("the header was not read"),
    }
}

#[test]
fn frames_carry_their_source() {
    assert_eq!(
        frame(socket("192.0.2.1:53"), b"hi"),
        vec![0, 0, 0, 1, 192, 0, 2, 1, 0, 53, b'h', b'i']
    );
    assert_eq!(frame(socket("[::1]:53"), b"")[3], 4);
    let tunnel = write_tunnel_frame(socket("192.0.2.1:53"), b"hi");
    assert_eq!(&tunnel[..2], &[0, 12]);
    match read_tunnel_packet(&tunnel) {
        Progress::Done { value, used } => {
            assert_eq!(value, frame(socket("192.0.2.1:53"), b"hi"));
            assert_eq!(used, 14);
        }
        _ => panic!("the frame was not read"),
    }
    assert!(matches!(read_tunnel_packet(&tunnel[..5]), Progress::More(9)));
}

#[test]
fn the_first_sender_is_the_client() {
    let mut client = None;
    let first = socket("192.0.2.10:6000");
    let target = socket("203.0.113.1:53");
    let datagram = frame(target, b"query");
    match handle_udp_associate(&mut client, first, &datagram) {
        UdpAction::Send { to, from } => {
            assert_eq!(to, target);
            assert_eq!(&datagram[from..], b"query");
        }
        _ => panic!("the datagram was not sent"),
    }
    assert_eq!(client, Some(first));
    match handle_udp_associate(&mut client, target, b"answer") {
        UdpAction::Reply { to, bytes } => {
            assert_eq!(to, first);
            assert_eq!(bytes, frame(target, b"answer"));
        }
        _ => panic!("the datagram was not returned"),
    }
    let mut fragment = datagram.clone();
    fragment[2] = 1;
    assert!(matches!(
        handle_udp_associate(&mut client, first, &fragment),
        UdpAction::Ignore
    ));
    assert!(matches!(
        handle_udp_associate(&mut client, first, &datagram[..9]),
        UdpAction::Ignore
    ));
}

#[test]
fn tunneled_datagrams_are_sent_on() {
    let packet = frame(socket("203.0.113.1:53"), b"query");
    match handle_tunneled_udp(&packet) {
        UdpAction::Send { to, from } => {
            assert_eq!(to, socket("203.0.113.1:53"));
            assert_eq!(from, 10);
        }
        _ => panic!("the datagram was not sent"),
    }
    let named = [&[0u8, 0, 0, 3, 3][..], b"dns", &[0, 53], b"query"].concat();
    match handle_tunneled_udp(&named) {
        UdpAction::Resolve { name, from } => {
            assert_eq!(name, "dns:53");
            assert_eq!(&named[from..], b"query");
        }
        _ => panic!("the name was not resolved"),
    }
    assert!(matches!(handle_tunneled_udp(&[0, 0, 0]), UdpAction::Ignore));
    assert!(matches!(handle_tunneled_udp(&[0, 0, 0, 4]), UdpAction::Ignore));
}

#[test]
fn agents_send_datagrams_both_ways() {
    let mut cache = DnsCache::new();
    let server = socket("203.0.113.1:51300");
    let target = socket("198.51.100.1:53");
    match handle_agent_udp_datagram(&mut cache, server, server, &frame(target, b"q"), 0) {
        AgentUdpAction::Send { to, from } => {
            assert_eq!(to, target);
            assert_eq!(from, 10);
        }
        _ => panic!("the datagram was not sent"),
    }
    match handle_agent_udp_datagram(&mut cache, server, target, b"a", 0) {
        AgentUdpAction::Forward(bytes) => assert_eq!(bytes, frame(target, b"a")),
        _ => panic!("the datagram was not returned"),
    }
    assert!(matches!(
        handle_agent_udp_datagram(&mut cache, server, socket("[::1]:1"), b"a", 0),
        AgentUdpAction::Ignore
    ));
    assert!(matches!(
        handle_agent_udp_datagram(&mut cache, server, server, &[0, 0, 0], 0),
        AgentUdpAction::Ignore
    ));
    assert!(matches!(
        handle_agent_udp_datagram(&mut cache, server, server, &[0, 0, 0, 9, 0], 0),
        AgentUdpAction::Ignore
    ));
}

#[test]
fn resolved_names_are_remembered_for_five_minutes() {
    let mut cache = DnsCache::new();
    let server = socket("203.0.113.1:51300");
    let named = [&[0u8, 0, 0, 3, 3][..], b"dns", &[0, 53], b"q"].concat();
    let name = match handle_agent_udp_datagram(&mut cache, server, server, &named, 0) {
        AgentUdpAction::Resolve { name, from } => {
            assert_eq!(name, "dns:53");
            assert_eq!(from, 10);
            name
        }
        _ => panic!("the name was not resolved"),
    };
    let found = vec![socket("[::1]:53"), socket("198.51.100.9:53")];
    assert_eq!(
        resolved(&mut cache, name, Some(found), 10),
        Some(socket("198.51.100.9:53"))
    );
    assert!(matches!(
        handle_agent_udp_datagram(&mut cache, server, server, &named, 9 + DNS_CACHE_TTL),
        AgentUdpAction::Send { .. }
    ));
    assert!(matches!(
        handle_agent_udp_datagram(&mut cache, server, server, &named, 10 + DNS_CACHE_TTL),
        AgentUdpAction::Resolve { .. }
    ));
    assert!(cache.names.is_empty());
    assert_eq!(resolved(&mut cache, "x:1".to_string(), None, 0), None);
    assert!(!is_session_over(5, 4 + AGENT_UDP_IDLE_TIMEOUT));
    assert!(is_session_over(5, 5 + AGENT_UDP_IDLE_TIMEOUT));
}
