use rust_proxy::http_proxy::{
    absolute_target, authorized, check_credentials, connect_failure, connection_established,
    handle_client, parse_request, read_header, write_response, HttpStep, Request,
};
use rust_proxy::net::{IpAddr, Ipv4Addr};
use rust_proxy::progress::Progress;
use rust_proxy::security::{is_blacklisted, SecurityManager};
use rust_proxy::socks5::open::{AgentFault, ConnectError, TargetFault};

fn peer() -> Option<IpAddr> {
    Some(IpAddr::V4(Ipv4Addr { a: 198, b: 51, c: 100, d: 7 }))
}

#[test]
fn parses_absolute_http_targets_and_basic_auth() {
    assert_eq!(
        absolute_target("http://example.com/path?q=1"),
        Ok(("example.com:80".into(), "/path?q=1".into()))
    );
    assert!(authorized(Some("Basic dXNlcjpwYXNz"), Some("user"), Some("pass")));
    assert!(!authorized(Some("Basic dXNlcjpiYWQ="), Some("user"), Some("pass")));
}

#[test]
fn targets_of_urls() {
    assert_eq!(
        absolute_target("http://example.com:8080"),
        Ok(("example.com:8080".into(), "/".into()))
    );
    assert_eq!(
        absolute_target("http://example.com?q=1"),
        Ok(("example.com:80".into(), "/?q=1".into()))
    );
    assert_eq!(absolute_target("https://example.com/"), Err(()));
    assert_eq!(absolute_target("http://user@example.com/"), Err(()));
    assert_eq!(absolute_target("http:///"), Err(()));
    assert_eq!(absolute_target("http://example.com#top"), Err(()));
}

#[test]
fn credentials_are_needed_in_full() {
    assert!(!authorized(None, Some("user"), Some("pass")));
    assert!(!authorized(Some("Basic dXNlcjpwYXNz"), None, Some("pass")));
    assert!(!authorized(Some("Digest dXNlcjpwYXNz"), Some("user"), Some("pass")));
    assert!(!authorized(Some("Basic dXNlcjpwYXNz extra"), Some("user"), Some("pass")));
    assert!(!authorized(Some("Basic !!!"), Some("user"), Some("pass")));
    assert!(authorized(Some("basic dXNlcjpwYXNz"), Some("user"), Some("pass")));
    assert!(check_credentials(Some(b"user:pass".to_vec()), "user", "pass"));
    assert!(!check_credentials(Some(b"user:pass".to_vec()), "user", "other"));
    assert!(!check_credentials(Some(vec![0xff]), "user", "pass"));
    assert!(!check_credentials(None, "user", "pass"));
}

#[test]
fn requests_are_parsed() {
    let header = b"GET http://example.com/a HTTP/1.1\r\nHost: example.com\r\nConnection: keep-alive\r\nProxy-Authorization: Basic x\r\n\r\n";
    match parse_request(header) {
        Ok((Request::Absolute { target, outbound }, authorization)) => {
            assert_eq!(target, "example.com:80");
            assert_eq!(
                outbound,
                b"GET /a HTTP/1.1\r\nHost: example.com\r\nProxy-Authorization: Basic x\r\nConnection: close\r\n\r\n".to_vec()
            );
            assert_eq!(authorization, Some("Basic x".to_string()));
        }
        _ => panic!("the request was not parsed"),
    }
    match parse_request(b"connect example.com:443 HTTP/1.1\r\n\r\n") {
        Ok((Request::Connect { target }, None)) => assert_eq!(target, "example.com:443"),
        _ => panic!("the request was not parsed"),
    }
    assert!(parse_request(b"INVALID\r\n\r\n").is_err());
    assert!(parse_request(b"CONNECT example.com:443 HTTP/1.0\r\n\r\n").is_err());
    assert!(parse_request(b"CONNECT example.com HTTP/1.1\r\n\r\n").is_err());
    assert!(parse_request(b"CONNECT example.com:443 HTTP/1.1\r\nno colon\r\n\r\n").is_err());
    assert!(parse_request(
        b"CONNECT a:1 HTTP/1.1\r\nProxy-Authorization: a\r\nproxy-authorization: b\r\n\r\n"
    )
    .is_err());
    assert!(parse_request(b"CONNECT \xff:1 HTTP/1.1\r\n\r\n").is_err());
    assert!(parse_request(b"CONNECT a:1 HTTP/1.1....").is_ok());
    assert!(parse_request(b"CONNECT a:1 HTTP/1.1\xff...").is_err());
}

#[test]
fn headers_end_with_a_blank_line() {
    assert!(matches!(read_header(b"GET / HTTP/1.1\r\n"), Progress::More(_)));
    assert!(matches!(
        read_header(b"GET / HTTP/1.1\r\n\r\nrest"),
        Progress::Done { used: 18, .. }
    ));
    assert!(matches!(read_header(&[b'a'; 8193]), Progress::Failed(())));
    assert!(matches!(read_header(&[b'a'; 8192]), Progress::More(_)));
    let mut long = vec![b'a'; 8190];
    long.extend_from_slice(b"\r\n\r\n");
    assert!(matches!(read_header(&long), Progress::Failed(())));
}

#[test]
fn clients_are_served_by_their_credentials() {
    let mut sm = SecurityManager::new();
    let ask = |bytes: &[u8], full: bool, sm: &mut SecurityManager| {
        handle_client(bytes, peer(), Some("user"), Some("pass"), full, sm, 0)
    };
    assert!(matches!(ask(b"CONNECT a:1", false, &mut sm), HttpStep::Read));
    match ask(b"INVALID\r\n\r\n", false, &mut sm) {
        HttpStep::Respond(reply) => assert_eq!(
            reply,
            "HTTP/1.1 400 Bad Request\r\nContent-Length: 0\r\nConnection: close\r\n\r\n"
        ),
        _ => panic!("no reply"),
    }
    match ask(b"CONNECT a:1 HTTP/1.1\r\n\r\n", false, &mut sm) {
        HttpStep::Respond(reply) => assert_eq!(
            reply,
            "HTTP/1.1 407 Proxy Authentication Required\r\nProxy-Authenticate: Basic realm=\"proxy\"\r\nContent-Length: 0\r\nConnection: close\r\n\r\n"
        ),
        _ => panic!("no reply"),
    }
    let good = b"CONNECT a:1 HTTP/1.1\r\nProxy-Authorization: Basic dXNlcjpwYXNz\r\n\r\nrest";
    match ask(good, false, &mut sm) {
        HttpStep::Open { target, outbound, tell } => {
            assert_eq!(target, "a:1");
            assert_eq!(outbound, b"rest".to_vec());
            assert!(tell);
        }
        _ => panic!("the target was not opened"),
    }
    match ask(good, true, &mut sm) {
        HttpStep::Respond(reply) => assert!(reply.starts_with("HTTP/1.1 429 Too Many Requests")),
        _ => panic!("no reply"),
    }
    for _ in 0..10 {
        ask(b"CONNECT a:1 HTTP/1.1\r\n\r\n", false, &mut sm);
    }
    assert!(is_blacklisted(&mut sm, "198.51.100.7", 0));
}

#[test]
fn failures_to_connect_are_told_apart() {
    assert_eq!(
        connect_failure(ConnectError::AgentUnavailable(AgentFault::Offline)),
        write_response("503 Service Unavailable", None)
    );
    assert_eq!(
        connect_failure(ConnectError::Target(TargetFault::Unreachable)),
        write_response("502 Bad Gateway", None)
    );
    assert_eq!(connection_established(), "HTTP/1.1 200 Connection Established\r\n\r\n");
}
