use rust_proxy::address_text::{parse_ip, parse_socket};
use rust_proxy::cache::{close_bind, open_bind, BindConfig, BindHandles};
use rust_proxy::net::{IpAddr, SocketAddr};
use rust_proxy::progress::Progress;
use rust_proxy::security::{add_to_blacklist, is_blacklisted, SecurityManager};
use rust_proxy::session::SessionStore;
use rust_proxy::socks5::open::{
    AgentFault, ConnectError, OpenAction, OpenEvent, OpenTarget, Route,
};
use rust_proxy::tunnel::api::{
    bind_refusal_reply, bound_reply, decide_bind, handle_api_connection, login, port_unavailable,
    route, unbind, ApiClock, ApiRoute, ApiSettings, ApiStep, BindRefusal, BindRequest,
};
use rust_proxy::tunnel::api_reply::too_large;
use rust_proxy::tunnel::api_request::{
    content_length, parse_api_request, read_api_request, ApiRequestError,
};
use rust_proxy::tunnel::control::{disconnect_agent, register_agent, Dialled};
use rust_proxy::tunnel::dashboard::{state_reply, AgentShown, BindShown};
use rust_proxy::tunnel::data::{advance_open, is_resetting};
use rust_proxy::tunnel::device::record_agent_status;
use rust_proxy::tunnel::gone::{GoneConnection, GoneConnections};
use rust_proxy::tunnel::qr::{pairing_text, qr_reply, show_drawing, Pairing};
use rust_proxy::tunnel::reset::{
    fail_reset, find_token, is_reset_query, request_reset, reset_done, time_out_reset,
    ResetRefusal, ResetStep,
};
use rust_proxy::tunnel::{
    no_agents, no_binds, no_totals, AgentRegistry, BindRegistry, DeviceStatus, DEFAULT_MAX_CONNS,
};

fn ip(text: &str) -> IpAddr {
    let chars: Vec<char> = text.chars().collect();
    parse_ip(&chars).unwrap()
}

fn socket(text: &str) -> SocketAddr {
    let chars: Vec<char> = text.chars().collect();
    parse_socket(&chars).unwrap()
}

/// A server with one agent.
struct Server {
    sm: SecurityManager,
    sessions: SessionStore,
    agents: AgentRegistry,
    binds: BindRegistry,
    settings: ApiSettings,
}

const CLOCK: ApiClock = ApiClock { unix_secs: 1_000, nanos: 2_000, millis: 3_000 };

impl Server {
    fn new() -> Server {
        let mut agents = no_agents();
        register(&mut agents, "phone", 1, "192.0.2.1:1000", 1);
        Server {
            sm: SecurityManager::new(),
            sessions: SessionStore::new(),
            agents,
            binds: no_binds(),
            settings: ApiSettings {
                admin_password: "admin-password".to_string(),
                page: "<html>\u{e9}</html>".to_string(),
                pairing: Pairing {
                    agent_password: Some("agent-password".to_string()),
                    control_port: 8080,
                    tls_fingerprint: "ab".repeat(32),
                    public_host: None,
                    public_port: None,
                },
            },
        }
    }

    fn ask(&mut self, request: &str) -> ApiStep {
        handle_api_connection(
            request,
            ip("198.51.100.7"),
            &self.settings,
            CLOCK,
            Some([5; 32]),
            77,
            &mut self.sm,
            &mut self.sessions,
            &mut self.agents,
            &mut self.binds,
        )
    }

    fn reply(&mut self, request: &str) -> String {
        match self.ask(request) {
            ApiStep::Respond(reply) => reply,
            step => panic!("no reply: {step:?}"),
        }
    }

    fn operator(&mut self, first: &str, body: &str) -> ApiStep {
        self.ask(&format!(
            "{first} HTTP/1.1\r\nX-Server-Password: admin-password\r\n\r\n{body}"
        ))
    }
}

fn register(agents: &mut AgentRegistry, name: &str, control: u64, addr: &str, os_type: u8) {
    let dialled = Dialled {
        control,
        addr: socket(addr),
        protocol_version: 2,
        os_type: Some(os_type),
        counter: control,
    };
    register_agent(agents, &mut GoneConnections::new(), &no_totals(), name, dialled, Some([7; 32]), 0).unwrap();
}

fn bind(agent: Option<&str>, port: Option<u64>, user: &str, pass: &str) -> BindRequest {
    BindRequest {
        limited: false,
        max_conns: None,
        agent_id: agent.map(String::from),
        port,
        user: Some(user.to_string()),
        pass: Some(pass.to_string()),
    }
}

fn config(port: u16) -> BindConfig {
    BindConfig {
        port,
        agent_id: "phone".to_string(),
        user: Some("u".to_string()),
        pass: Some("p".to_string()),
        usage: 0,
        max_conns: 3,
    }
}

fn body_of(reply: &str) -> serde_json::Value {
    let (_, body) = reply.split_once("\r\n\r\n").unwrap();
    serde_json::from_str(body).unwrap()
}

#[test]
fn requests_are_read_to_their_length() {
    let request = b"POST /api/login HTTP/1.1\r\nContent-Length: 5\r\n\r\nhello";
    match read_api_request(request) {
        Progress::Done { value, used } => {
            assert_eq!(value.as_bytes(), request);
            assert_eq!(used, request.len());
        }
        _ => panic!("the request was not read"),
    }
    assert!(matches!(read_api_request(&request[..request.len() - 2]), Progress::More(2)));
    assert!(matches!(read_api_request(b"GET / HTTP/1.1\r\n"), Progress::More(_)));
    assert!(matches!(
        read_api_request(b"POST /api/login HTTP/1.1\r\nContent-Length: 65537\r\n\r\n"),
        Progress::Failed(ApiRequestError::TooLarge)
    ));
    assert!(matches!(
        read_api_request(b"POST / HTTP/1.1\r\nContent-Length: x\r\n\r\n"),
        Progress::Failed(ApiRequestError::Incomplete)
    ));
    assert_eq!(content_length(b"A: b\r\nCONTENT-LENGTH:  42 \r\n\r\n"), Ok(42));
    assert_eq!(content_length(b"A: b\r\n\r\n"), Ok(0));
    assert_eq!(content_length(b"\xff"), Err(ApiRequestError::Incomplete));
    assert_eq!(
        too_large(),
        "HTTP/1.1 413 Payload Too Large\r\nContent-Type: application/json\r\nConnection: close\r\n\r\n{\"error\":\"Payload too large\"}"
    );
}

#[test]
fn requests_are_taken_apart() {
    let request = parse_api_request(
        "GET /phone?reset_ip&token=t HTTP/1.1\r\nHost: proxy.example:8081\r\nx-server-password: pw \r\nCookie: a=b\r\nX-Forwarded-Proto: HTTPS\r\nCF-Connecting-IP: 1.2.3.4\r\nX-Forwarded-For: 5.6.7.8\r\n\r\nbody\0",
    )
    .unwrap();
    assert_eq!(request.method, "GET");
    assert_eq!(request.base_path, "/phone");
    assert_eq!(request.query, "reset_ip&token=t");
    assert_eq!(request.headers.host, "proxy.example");
    assert_eq!(request.headers.password, "pw");
    assert_eq!(request.headers.cookie, "a=b");
    assert!(request.headers.https);
    assert_eq!(request.headers.cf_ip, Some("1.2.3.4".to_string()));
    assert_eq!(request.headers.forwarded_for, Some("5.6.7.8".to_string()));
    assert_eq!(request.body, "body");
    assert!(parse_api_request("GET\r\n\r\n").is_none());
}

#[test]
fn paths_lead_to_their_routes() {
    assert_eq!(route("GET", "/", "", false), ApiRoute::Index);
    assert_eq!(route("GET", "/index.html", "", false), ApiRoute::Index);
    assert_eq!(route("POST", "/api/login", "", false), ApiRoute::Login);
    assert_eq!(route("GET", "/api/login", "", false), ApiRoute::Denied);
    assert_eq!(route("POST", "/api/logout", "", false), ApiRoute::Logout);
    assert_eq!(route("GET", "/api/state", "", false), ApiRoute::Denied);
    assert_eq!(route("GET", "/api/state", "", true), ApiRoute::State);
    assert_eq!(route("GET", "/qr", "", false), ApiRoute::QrDenied);
    assert_eq!(route("GET", "/qr", "", true), ApiRoute::Qr);
    assert_eq!(route("GET", "/phone", "reset_ip", false), ApiRoute::Reset);
    assert_eq!(route("GET", "/api/state", "reset_ip", true), ApiRoute::Reset);
    assert_eq!(route("POST", "/api/bind", "", true), ApiRoute::Bind);
    assert_eq!(route("GET", "/api/bind", "", true), ApiRoute::NotFound);
    assert_eq!(route("POST", "/api/unbind", "", true), ApiRoute::Unbind);
    assert_eq!(route("GET", "/api/blacklist", "", true), ApiRoute::Bans);
    assert_eq!(route("POST", "/api/blacklist", "", true), ApiRoute::AddBan);
    assert_eq!(route("DELETE", "/api/blacklist", "", true), ApiRoute::RemoveBan);
    assert_eq!(route("PUT", "/api/blacklist", "", true), ApiRoute::NotFound);
    assert_eq!(route("GET", "/favicon.ico", "", true), ApiRoute::NotFound);
}

#[test]
fn the_page_is_for_everyone() {
    let mut server = Server::new();
    assert_eq!(
        server.reply("GET / HTTP/1.1\r\n\r\n"),
        "HTTP/1.1 200 OK\r\nContent-Type: text/html\r\nContent-Length: 15\r\nConnection: close\r\n\r\n<html>\u{e9}</html>"
    );
    assert!(matches!(server.ask("GET\r\n\r\n"), ApiStep::Close));
    assert_eq!(
        server.reply("GET /favicon.ico HTTP/1.1\r\n\r\n"),
        "HTTP/1.1 404 Not Found\r\nContent-Type: application/json\r\n\r\n{\"error\":\"Not Found\"}"
    );
}

#[test]
fn logging_in_opens_the_dashboard_and_logging_out_closes_it() {
    let mut server = Server::new();
    let denied = server.reply("GET /api/state HTTP/1.1\r\n\r\n");
    assert_eq!(
        denied,
        "HTTP/1.1 401 Unauthorized\r\nContent-Type: application/json\r\n\r\n{\"error\":\"Unauthorized\"}"
    );
    let reply = server.reply(
        "POST /api/login HTTP/1.1\r\nHost: localhost\r\n\r\n{\"password\":\"admin-password\"}",
    );
    let token = "05".repeat(32);
    assert_eq!(
        reply,
        format!("HTTP/1.1 200 OK\r\nContent-Type: application/json\r\nSet-Cookie: rp_session={token}; HttpOnly; SameSite=Strict; Path=/; Max-Age=604800\r\nConnection: close\r\n\r\n{{\"ok\":true}}")
    );
    let with_cookie =
        format!("GET /api/state HTTP/1.1\r\nCookie: rp_session={token}\r\n\r\n");
    assert!(matches!(server.ask(&with_cookie), ApiStep::State { .. }));
    let logout = format!("POST /api/logout HTTP/1.1\r\nCookie: rp_session={token}\r\n\r\n");
    assert!(server.reply(&logout).contains("Max-Age=0"));
    assert!(server.reply(&with_cookie).starts_with("HTTP/1.1 401"));
}

#[test]
fn wrong_passwords_count_towards_a_ban() {
    let mut server = Server::new();
    for _ in 0..10 {
        let reply =
            server.reply("POST /api/login HTTP/1.1\r\n\r\n{\"password\":\"guess\"}");
        assert_eq!(
            reply,
            "HTTP/1.1 401 Unauthorized\r\nContent-Type: application/json\r\nConnection: close\r\n\r\n{\"error\":\"Unauthorized\"}"
        );
    }
    assert_eq!(
        server.reply("GET / HTTP/1.1\r\n\r\n"),
        "HTTP/1.1 429 Too Many Requests\r\nContent-Type: application/json\r\nConnection: close\r\n\r\n{\"error\":\"Too many attempts\"}"
    );
    assert!(is_blacklisted(&mut server.sm, "198.51.100.7", 1_000));
}

#[test]
fn logins_are_answered_by_their_password() {
    let mut sm = SecurityManager::new();
    let mut sessions = SessionStore::new();
    let mut ask = |password: Option<&str>, random| {
        login(
            &mut sm,
            &mut sessions,
            password.map(String::from),
            "admin",
            random,
            "198.51.100.7",
            true,
            CLOCK,
        )
    };
    assert_eq!(
        ask(None, Some([1; 32])),
        "HTTP/1.1 400 Bad Request\r\nContent-Type: application/json\r\nConnection: close\r\n\r\n{\"error\":\"Bad request\"}"
    );
    assert!(ask(Some("x"), Some([1; 32])).starts_with("HTTP/1.1 401"));
    assert!(ask(Some("admin"), Some([1; 32])).contains("; HttpOnly; Secure;"));
    assert_eq!(
        ask(Some("admin"), None),
        "HTTP/1.1 500 Internal Server Error\r\nContent-Type: application/json\r\nConnection: close\r\n\r\n{\"error\":\"Internal error\"}"
    );
    assert_eq!(sessions.len(), 1);
    assert_eq!(sm.failed_attempts.len(), 0);
}

#[test]
fn ports_are_opened_for_good_requests_only() {
    let mut agents = no_agents();
    register(&mut agents, "phone", 1, "192.0.2.1:1000", 1);
    let mut binds = no_binds();
    let ask = |request, binds: &BindRegistry| decide_bind(request, &agents, binds);
    assert!(matches!(ask(None, &binds), Err(BindRefusal::Invalid)));
    assert!(matches!(
        ask(Some(bind(None, Some(51300), "u", "p")), &binds),
        Err(BindRefusal::Invalid)
    ));
    assert!(matches!(
        ask(Some(bind(Some("phone"), Some(65536), "u", "p")), &binds),
        Err(BindRefusal::Invalid)
    ));
    assert!(matches!(
        ask(Some(bind(Some("phone"), Some(51300), "", "p")), &binds),
        Err(BindRefusal::Credentials)
    ));
    assert!(matches!(
        ask(Some(bind(Some("phone"), Some(80), "u", "p")), &binds),
        Err(BindRefusal::PortRange)
    ));
    assert!(matches!(
        ask(Some(bind(Some("tablet"), Some(51300), "u", "p")), &binds),
        Err(BindRefusal::NoAgent)
    ));
    for max_conns in [None, Some(0), Some(65536)] {
        let mut request = bind(Some("phone"), Some(51300), "u", "p");
        request.limited = true;
        request.max_conns = max_conns;
        assert!(matches!(ask(Some(request), &binds), Err(BindRefusal::MaxConns)));
    }
    let opened = ask(Some(bind(Some("phone"), Some(51300), "u", "p")), &binds).unwrap();
    assert_eq!(opened.port, 51300);
    assert_eq!(opened.agent_id, "phone");
    assert_eq!(opened.max_conns, DEFAULT_MAX_CONNS);
    open_bind(&mut binds, opened, BindHandles { usage: 1, connection_limit: 2, shutdown: 3 });
    assert!(matches!(
        ask(Some(bind(Some("phone"), Some(51300), "u", "p")), &binds),
        Err(BindRefusal::Bound)
    ));
    close_bind(&mut binds, 51300);
    assert!(ask(Some(bind(Some("phone"), Some(51300), "u", "p")), &binds).is_ok());
}

#[test]
fn refused_ports_are_answered() {
    assert_eq!(
        bind_refusal_reply(BindRefusal::PortRange),
        "HTTP/1.1 422 Unprocessable Content\r\nContent-Type: application/json\r\n\r\n{\"error\":\"Port must be between 51300 and 51399\"}"
    );
    assert!(bind_refusal_reply(BindRefusal::Invalid).ends_with("{\"error\":\"Invalid JSON\"}"));
    assert!(bind_refusal_reply(BindRefusal::MaxConns)
        .ends_with("{\"error\":\"Invalid max_conns\"}"));
    assert!(bind_refusal_reply(BindRefusal::Credentials)
        .ends_with("{\"error\":\"Missing credentials\"}"));
    assert!(bind_refusal_reply(BindRefusal::NoAgent).starts_with("HTTP/1.1 404"));
    assert!(bind_refusal_reply(BindRefusal::Bound)
        .ends_with("{\"error\":\"Port already bound\"}"));
    assert_eq!(
        port_unavailable("in use"),
        "HTTP/1.1 409 Conflict\r\nContent-Type: application/json\r\n\r\n{\"error\":\"Port unavailable: in use\"}"
    );
    assert_eq!(
        bound_reply(),
        "HTTP/1.1 200 OK\r\nContent-Type: application/json\r\n\r\n{\"status\":\"bound\"}"
    );
}

#[test]
fn the_operator_opens_and_closes_ports() {
    let mut server = Server::new();
    let step = server.operator(
        "POST /api/bind",
        "{\"agent_id\":\"phone\",\"port\":51301,\"user\":\"u\",\"pass\":\"p\",\"max_conns\":4}",
    );
    let config = match step {
        ApiStep::Listen(config) => config,
        step => panic!("the port is not opened: {step:?}"),
    };
    assert_eq!(config.port, 51301);
    assert_eq!(config.user, Some("u".to_string()));
    assert_eq!(config.max_conns, 4);
    open_bind(
        &mut server.binds,
        config,
        BindHandles { usage: 10, connection_limit: 11, shutdown: 12 },
    );
    match server.operator("POST /api/bind", "{\"agent_id\":\"phone\",\"port\":51301,\"user\":\"u\",\"pass\":\"p\"}") {
        ApiStep::Respond(reply) => assert!(reply.starts_with("HTTP/1.1 409")),
        step => panic!("the port is opened twice: {step:?}"),
    }
    match server.operator("POST /api/bind", "{\"agent_id\":\"phone\",\"port\":51302,\"user\":\"u\",\"pass\":\"p\",\"max_conns\":0}") {
        ApiStep::Respond(reply) => {
            assert!(reply.starts_with("HTTP/1.1 400"));
            assert!(reply.ends_with("{\"error\":\"Invalid max_conns\"}"));
        }
        step => panic!("the port is opened: {step:?}"),
    }
    match server.operator("POST /api/unbind", "{\"port\":51301}") {
        ApiStep::Unbind { shutdown, reply } => {
            assert_eq!(shutdown, Some(12));
            assert!(reply.ends_with("{\"status\":\"unbound\"}"));
        }
        step => panic!("the port is not closed: {step:?}"),
    }
    match server.operator("POST /api/unbind", "not json") {
        ApiStep::Unbind { shutdown, reply } => {
            assert_eq!(shutdown, None);
            assert!(reply.ends_with("{\"error\":\"Invalid JSON\"}"));
        }
        step => panic!("something is closed: {step:?}"),
    }
}

#[test]
fn a_port_is_told_to_close_once() {
    let mut binds = no_binds();
    open_bind(
        &mut binds,
        config(51305),
        BindHandles { usage: 1, connection_limit: 2, shutdown: 3 },
    );
    assert_eq!(unbind(&mut binds, Some(51305 + 65536)).0, Some(3));
    assert_eq!(unbind(&mut binds, Some(51305)).0, None);
    assert_eq!(unbind(&mut binds, Some(51306)).0, None);
    assert_eq!(binds.len(), 1);
}

#[test]
fn the_operator_sees_and_changes_bans() {
    let mut server = Server::new();
    add_to_blacklist(&mut server.sm, "203.0.113.2".to_string(), 1_000);
    match server.operator("POST /api/blacklist", "{\"ip\":\"203.0.113.1\"}") {
        ApiStep::Respond(reply) => assert!(reply.ends_with("{\"status\":\"success\"}")),
        step => panic!("no reply: {step:?}"),
    }
    match server.operator("GET /api/blacklist", "") {
        ApiStep::Respond(reply) => assert_eq!(
            reply,
            "HTTP/1.1 200 OK\r\nContent-Type: application/json\r\nContent-Length: 43\r\nConnection: close\r\n\r\n{\"blacklist\":[\"203.0.113.1\",\"203.0.113.2\"]}"
        ),
        step => panic!("no reply: {step:?}"),
    }
    match server.operator("DELETE /api/blacklist", "{\"ip\":\"203.0.113.1\"}") {
        ApiStep::Respond(reply) => assert!(reply.starts_with("HTTP/1.1 200")),
        step => panic!("no reply: {step:?}"),
    }
    assert!(!is_blacklisted(&mut server.sm, "203.0.113.1", 1_000));
    assert!(is_blacklisted(&mut server.sm, "203.0.113.2", 1_000));
    match server.operator("POST /api/blacklist", "{}") {
        ApiStep::Respond(reply) => assert!(reply.ends_with("{\"error\":\"Invalid JSON\"}")),
        step => panic!("no reply: {step:?}"),
    }
}

#[test]
fn the_state_shows_agents_and_ports() {
    let mut server = Server::new();
    register(&mut server.agents, "tablet", 2, "192.0.2.1:2000", 0);
    register(&mut server.agents, "pc", 3, "192.0.2.3:2000", 0);
    let status = DeviceStatus {
        carrier: "carrier".to_string(),
        net: "LTE".to_string(),
        signal: 3,
        battery: 50,
        temp_c_bits: 30.0f32.to_bits(),
        charging: false,
        health: "good".to_string(),
        app: "1.0".to_string(),
        proto: 2,
        assistant: true,
        transport: "cellular".to_string(),
    };
    assert_eq!(
        record_agent_status(&mut server.agents, "phone", 1, status, 0, 1_234),
        Some(Ok(true))
    );
    open_bind(
        &mut server.binds,
        config(51305),
        BindHandles { usage: 1, connection_limit: 2, shutdown: 3 },
    );
    let (agents, binds) = match server.operator("GET /api/state", "") {
        ApiStep::State { agents, binds } => (agents, binds),
        step => panic!("no state: {step:?}"),
    };
    assert_eq!(agents.len(), 3);
    assert_eq!(binds.len(), 1);
    let shown = agents
        .into_iter()
        .map(|row| AgentShown {
            row,
            usage_mb: "1.50".to_string(),
            temp_c: serde_json::Value::from(30.0),
        })
        .collect();
    let ports = binds
        .into_iter()
        .map(|row| BindShown { row, usage_mb: "0.00".to_string(), available: 2 })
        .collect();
    let reply = state_reply(shown, ports, "proxy.example");
    let state = body_of(&reply);
    let agents = state["agents"].as_array().unwrap();
    let agent = |name: &str| agents.iter().find(|agent| agent["id"] == name).unwrap();
    assert_eq!(agent("phone")["addr"], "192.0.2.1:1000");
    assert_eq!(agent("phone")["os"], "Android");
    assert_eq!(agent("phone")["proto_version"], 2);
    assert_eq!(agent("phone")["status"], "connected");
    assert_eq!(agent("phone")["usage_mb"], "1.50");
    assert_eq!(agent("phone")["shared_ip"], true);
    assert_eq!(
        agent("phone")["reset_url"],
        format!("/phone?reset_ip&token={}", "07".repeat(32))
    );
    assert_eq!(agent("phone")["device"]["carrier"], "carrier");
    assert_eq!(agent("phone")["device"]["signal"], 3);
    assert_eq!(agent("phone")["device"]["temp_c"], 30.0);
    assert_eq!(agent("phone")["device"]["received_at"], 1_234);
    assert_eq!(agent("phone")["device"]["assistant"], true);
    assert_eq!(agent("tablet")["os"], "PC");
    assert_eq!(agent("tablet")["shared_ip"], true);
    assert_eq!(agent("pc")["shared_ip"], false);
    assert!(agent("pc")["device"].is_null());
    let ports = state["binds"].as_array().unwrap();
    assert_eq!(ports[0]["port"], 51305);
    assert_eq!(ports[0]["agent_id"], "phone");
    assert_eq!(ports[0]["user"], "u");
    assert_eq!(ports[0]["pass"], "p");
    assert_eq!(ports[0]["active_conns"], 1);
    assert_eq!(ports[0]["max_conns"], 3);
    assert_eq!(state["socks_host"], "proxy.example");
    assert_eq!(state["socks_port_min"], 51300);
    assert_eq!(state["socks_port_max"], 51399);
    let (head, body) = reply.split_once("\r\n\r\n").unwrap();
    assert!(head.contains(&format!("Content-Length: {}\r\n", body.len())));
}

#[test]
fn a_reset_is_asked_for_with_the_token() {
    assert!(is_reset_query("a&reset_ip&b"));
    assert!(!is_reset_query("reset_ip=1"));
    assert_eq!(find_token("reset_ip&token=a=b&token=c"), Some("a=b".to_string()));
    assert_eq!(find_token("reset_ip"), None);

    let mut agents = no_agents();
    register(&mut agents, "phone", 1, "192.0.2.1:1000", 1);
    register(&mut agents, "pc", 2, "192.0.2.2:1000", 0);
    let token = "07".repeat(32);
    let right = format!("reset_ip&token={token}");
    let refusal = |agents: &mut AgentRegistry, path: &str, query: &str| {
        match request_reset(agents, path, query, 0, 9) {
            ResetStep::Refuse(refusal) => Some(refusal),
            ResetStep::Send { .. } => None,
        }
    };
    assert_eq!(refusal(&mut agents, "/phone", "reset_ip"), Some(ResetRefusal::Unauthorized));
    assert_eq!(refusal(&mut agents, "/tablet", &right), Some(ResetRefusal::NoAgent));
    assert_eq!(
        refusal(&mut agents, "/phone", "reset_ip&token=x"),
        Some(ResetRefusal::Unauthorized)
    );
    assert_eq!(refusal(&mut agents, "/pc", &right), Some(ResetRefusal::NotAndroid));
    assert_eq!(refusal(&mut agents, "//phone", &right), None);
    assert_eq!(refusal(&mut agents, "/phone", &right), Some(ResetRefusal::InProgress));
    assert!(agents.get("phone").unwrap().resetting);
}

#[test]
fn a_reset_is_answered_when_the_agent_returns() {
    let mut server = Server::new();
    let token = "07".repeat(32);
    let step = server.ask(&format!("GET /phone?reset_ip&token={token} HTTP/1.1\r\n\r\n"));
    match step {
        ApiStep::Reset { control, name, addr } => {
            assert_eq!(control, 1);
            assert_eq!(name, "phone");
            assert_eq!(addr, socket("192.0.2.1:1000"));
        }
        step => panic!("the agent is not reset: {step:?}"),
    }
    let mut totals = no_totals();
    let mut gone = GoneConnections::new();
    assert!(is_resetting(&mut server.agents, &mut gone, "phone", 1));
    disconnect_agent(
        &mut server.agents,
        &mut gone,
        &mut totals,
        "phone",
        1,
        socket("192.0.2.1:1000"),
        0,
    );
    assert!(server.agents.get("phone").is_some());
    let dialled = Dialled {
        control: 4,
        addr: socket("203.0.113.50:7"),
        protocol_version: 2,
        os_type: Some(1),
        counter: 4,
    };
    let registration =
        register_agent(&mut server.agents, &mut gone, &totals, "phone", dialled, None, 3_250)
            .unwrap();
    assert!(is_resetting(&mut server.agents, &mut gone, "phone", 1));
    assert!(!is_resetting(&mut server.agents, &mut gone, "phone", 4));
    let answer = registration.answer.unwrap();
    assert_eq!(answer.response, 77);
    assert_eq!(answer.old_ip, "192.0.2.1");
    assert_eq!(answer.new_ip, "203.0.113.50");
    assert_eq!(answer.took_ms, 250);
    let body = body_of(&reset_done(&answer));
    assert_eq!(body["status"], "rotated");
    assert_eq!(body["old_ip"], "192.0.2.1");
    assert_eq!(body["new_ip"], "203.0.113.50");
    assert_eq!(body["took_ms"], 250);
    assert!(!server.agents.get("phone").unwrap().resetting);
    disconnect_agent(&mut server.agents, &mut gone, &mut totals, "phone", 4, socket("203.0.113.50:7"), 0);
    assert!(server.agents.is_empty());
    assert!(is_resetting(&mut server.agents, &mut gone, "phone", 1));
    let resetting = is_resetting(&mut server.agents, &mut gone, "phone", 1);
    let mut attempt = OpenTarget::new("a:1".to_string(), Route::Open, 70);
    let action = advance_open(
        &mut server.agents,
        &mut gone,
        "phone",
        1,
        &mut attempt,
        OpenEvent::Begin { resetting },
    );
    let fault = ConnectError::AgentUnavailable(AgentFault::Resetting);
    assert!(matches!(action, OpenAction::Fail(error) if error == fault));
}

#[test]
fn resets_are_given_up() {
    let mut agents = no_agents();
    register(&mut agents, "phone", 1, "192.0.2.1:1000", 1);
    let query = format!("reset_ip&token={}", "07".repeat(32));
    assert!(matches!(
        request_reset(&mut agents, "/phone", &query, 0, 9),
        ResetStep::Send { .. }
    ));
    let mut gone = GoneConnections::new();
    for control in [1, 2] {
        gone.put(
            control,
            GoneConnection {
                active_requests: dashmap::DashMap::new(),
                pending_opens: dashmap::DashMap::new(),
                resetting: true,
            },
        );
    }
    assert!(fail_reset(&mut agents, &mut gone, "phone", 1)
        .ends_with("{\"error\":\"Failed to command agent\"}"));
    assert!(!gone.was_resetting(1));
    assert!(gone.was_resetting(2));
    assert!(!agents.get("phone").unwrap().resetting);
    assert!(matches!(
        request_reset(&mut agents, "/phone", &query, 0, 9),
        ResetStep::Send { .. }
    ));
    assert_eq!(
        time_out_reset(&mut agents, &mut gone, "phone", 1, socket("192.0.2.1:1000")),
        "HTTP/1.1 504 Gateway Timeout\r\nContent-Type: application/json\r\n\r\n{\"error\":\"Reset timeout\"}"
    );
    assert!(agents.is_empty());
    assert!(!is_resetting(&mut agents, &mut gone, "phone", 1));

    register(&mut agents, "phone", 5, "192.0.2.1:1000", 1);
    assert!(matches!(
        request_reset(&mut agents, "/phone", &query, 0, 9),
        ResetStep::Send { .. }
    ));
    time_out_reset(&mut agents, &mut gone, "phone", 4, socket("192.0.2.1:1000"));
    assert!(agents.is_empty());
    assert!(is_resetting(&mut agents, &mut gone, "phone", 5));
    gone.forget(5);
    assert!(!is_resetting(&mut agents, &mut gone, "phone", 5));
}

#[test]
fn the_code_says_where_the_server_is() {
    let mut pairing = Server::new().settings.pairing;
    let fingerprint = "ab".repeat(32);
    assert_eq!(
        pairing_text(&pairing, ""),
        format!("{{\"fp\":\"{fingerprint}\",\"h\":\"127.0.0.1\",\"p\":8080,\"pwd\":\"agent-password\"}}")
    );
    pairing.public_host = Some("proxy.example".to_string());
    pairing.public_port = Some("9000".to_string());
    pairing.agent_password = None;
    assert_eq!(
        pairing_text(&pairing, "asked.example"),
        format!("{{\"fp\":\"{fingerprint}\",\"h\":\"proxy.example\",\"p\":9000,\"pwd\":\"\"}}")
    );
    pairing.public_host = Some(String::new());
    for port in ["0", "70000", "x"] {
        pairing.public_port = Some(port.to_string());
        assert_eq!(
            pairing_text(&pairing, "asked.example"),
            format!("{{\"fp\":\"{fingerprint}\",\"h\":\"asked.example\",\"p\":8080,\"pwd\":\"\"}}")
        );
    }
    let page = qr_reply(&pairing, "asked.example");
    assert!(page.starts_with("HTTP/1.1 200 OK\r\nContent-Type: text/html\r\nConnection: close\r\n\r\n<html>"));
    assert!(page.contains("<div class=\"qr-container\"><?xml"));
    assert!(page.ends_with("</svg></div></body></html>"));
    pairing.tls_fingerprint = "x".repeat(5_000);
    assert_eq!(
        qr_reply(&pairing, ""),
        "HTTP/1.1 500 Internal Server Error\r\n\r\nQR Error: data too long"
    );
    assert_eq!(
        show_drawing(&Err("why".to_string())),
        "HTTP/1.1 500 Internal Server Error\r\n\r\nQR Error: why"
    );
}

#[test]
fn the_code_is_for_the_operator() {
    let mut server = Server::new();
    assert_eq!(
        server.reply("GET /qr HTTP/1.1\r\n\r\n"),
        "HTTP/1.1 401 Unauthorized\r\nContent-Type: text/plain\r\n\r\nUnauthorized"
    );
    assert_eq!(server.sm.failed_attempts.get("198.51.100.7"), Some(1));
    match server.operator("GET /qr", "") {
        ApiStep::Respond(reply) => assert!(reply.starts_with("HTTP/1.1 200 OK")),
        step => panic!("no reply: {step:?}"),
    }
    assert_eq!(server.sm.failed_attempts.get("198.51.100.7"), None);
}
