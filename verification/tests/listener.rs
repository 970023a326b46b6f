use rust_proxy::address_text::parse_socket;
use rust_proxy::cache::{open_bind, BindConfig, BindHandles};
use rust_proxy::http_proxy::{self, connect_failure, HttpStep};
use rust_proxy::security::SecurityManager;
use rust_proxy::socks5::client::{connect_reply, Next, SocksClient};
use rust_proxy::socks5::open::{
    link_route, AgentFault, ConnectError, OpenAction, OpenEvent, OpenTarget,
};
use rust_proxy::tunnel::control::{disconnect_agent, register_agent, Dialled};
use rust_proxy::tunnel::data::Admission;
use rust_proxy::tunnel::gone::GoneConnections;
use rust_proxy::tunnel::listener::{
    run_socks_listener, ConnectionLimit, ListenerAction, ListenerEvent,
};
use rust_proxy::tunnel::{no_agents, no_binds, no_totals, AgentRegistry, BindRegistry};

const PORT: u16 = 51300;

fn dialled(control: u64, protocol_version: u8) -> Dialled {
    let chars: Vec<char> = "192.0.2.1:1000".chars().collect();
    let addr = parse_socket(&chars).unwrap();
    Dialled { control, addr, protocol_version, os_type: Some(0), counter: control }
}

fn open_port() -> BindRegistry {
    let mut binds = no_binds();
    let config = BindConfig {
        agent_id: "phone".to_string(),
        port: PORT,
        usage: 0,
        max_conns: 2,
        user: Some("u".to_string()),
        pass: Some("p".to_string()),
    };
    open_bind(&mut binds, config, BindHandles { usage: 1, connection_limit: 2, shutdown: 3 });
    binds
}

fn take(
    agents: &mut AgentRegistry,
    binds: &mut BindRegistry,
    limit: &mut ConnectionLimit,
    event: ListenerEvent,
) -> ListenerAction {
    run_socks_listener(agents, binds, limit, "phone", PORT, event)
}

fn served(action: ListenerAction) -> Admission {
    match action {
        ListenerAction::Serve(admission) => admission,
        other => panic!("not served: {other:?}"),
    }
}

#[test]
fn a_port_outlives_its_agent() {
    let (mut agents, mut binds, mut totals) = (no_agents(), open_port(), no_totals());
    let mut limit = ConnectionLimit::new(2);
    register_agent(&mut agents, &mut GoneConnections::new(), &totals, "phone", dialled(1, 2), Some([7; 32]), 0).unwrap();
    let first = served(take(&mut agents, &mut binds, &mut limit, ListenerEvent::Client));
    assert_eq!(first.agent.unwrap().control, 1);
    take(&mut agents, &mut binds, &mut limit, ListenerEvent::Gone);

    let addr = dialled(1, 2).addr;
    disconnect_agent(&mut agents, &mut GoneConnections::new(), &mut totals, "phone", 1, addr, 0);
    assert!(binds.contains_key(&PORT));
    assert_eq!(
        take(&mut agents, &mut binds, &mut limit, ListenerEvent::Told(Some(false))),
        ListenerAction::Wait
    );
    assert_eq!(
        take(&mut agents, &mut binds, &mut limit, ListenerEvent::AcceptFailed),
        ListenerAction::Pause
    );
    let second = served(take(&mut agents, &mut binds, &mut limit, ListenerEvent::Client));
    assert_eq!(second, Admission { limit_reached: false, agent: None });
    assert!(binds.contains_key(&PORT));
    take(&mut agents, &mut binds, &mut limit, ListenerEvent::Gone);

    let mut attempt = OpenTarget::new("a:1".to_string(), link_route(None, true), 0);
    let action = attempt.open_target(
        OpenEvent::Begin { resetting: false },
        &mut dashmap::DashMap::new(),
        &mut dashmap::DashMap::new(),
    );
    let offline = ConnectError::AgentUnavailable(AgentFault::Offline);
    assert!(matches!(action, OpenAction::Fail(error) if error == offline));
    assert_eq!(connect_reply(false, None), vec![5, 4, 0, 1, 0, 0, 0, 0, 0, 0]);
    assert!(connect_failure(offline).starts_with("HTTP/1.1 503 Service Unavailable\r\n"));

    register_agent(&mut agents, &mut GoneConnections::new(), &totals, "phone", dialled(4, 1), Some([7; 32]), 0).unwrap();
    let third = served(take(&mut agents, &mut binds, &mut limit, ListenerEvent::Client));
    assert_eq!(third.agent.unwrap().control, 4);
    assert_eq!(
        take(&mut agents, &mut binds, &mut limit, ListenerEvent::Told(Some(true))),
        ListenerAction::Close
    );
    assert!(!binds.contains_key(&PORT));
}

#[test]
fn a_port_that_nobody_can_close_is_closed() {
    let (mut agents, mut binds) = (no_agents(), open_port());
    let mut limit = ConnectionLimit::new(2);
    assert_eq!(
        take(&mut agents, &mut binds, &mut limit, ListenerEvent::Told(None)),
        ListenerAction::Close
    );
    assert!(binds.is_empty());
}

#[test]
fn a_full_port_turns_clients_away() {
    let (mut agents, mut binds) = (no_agents(), open_port());
    let mut limit = ConnectionLimit::new(10);
    register_agent(&mut agents, &mut GoneConnections::new(), &no_totals(), "phone", dialled(1, 2), Some([7; 32]), 0).unwrap();
    for taken in 0..10 {
        assert_eq!(limit.available(), 10 - taken);
        let client = served(take(&mut agents, &mut binds, &mut limit, ListenerEvent::Client));
        assert!(!client.limit_reached && client.agent.is_some());
    }
    let turned = served(take(&mut agents, &mut binds, &mut limit, ListenerEvent::Client));
    assert_eq!(turned, Admission { limit_reached: true, agent: None });
    assert_eq!(limit.available(), 0);

    let mut sm = SecurityManager::new();
    let mut client = SocksClient::new(None, None, None, turned.limit_reached);
    let sent = [5u8, 1, 0, 5, 1, 0, 1, 192, 0, 2, 1, 0, 80];
    let step = client.handle_client(&sent, &mut sm, 0);
    assert_eq!(step.write, vec![5, 0, 5, 2, 0, 1, 0, 0, 0, 0, 0, 0]);
    assert!(matches!(step.next, Next::Close));
    let sent = b"CONNECT a:1 HTTP/1.1\r\nProxy-Authorization: Basic dXNlcjpwYXNz\r\n\r\n";
    let step = http_proxy::handle_client(
        sent,
        None,
        Some("user"),
        Some("pass"),
        turned.limit_reached,
        &mut sm,
        0,
    );
    match step {
        HttpStep::Respond(reply) => {
            assert!(reply.starts_with("HTTP/1.1 429 Too Many Requests\r\n"))
        }
        _ => panic!("the client was not turned away"),
    }

    take(&mut agents, &mut binds, &mut limit, ListenerEvent::Gone);
    assert_eq!(limit.available(), 1);
    let next = served(take(&mut agents, &mut binds, &mut limit, ListenerEvent::Client));
    assert!(!next.limit_reached && next.agent.is_some());
    for _ in 0..10 {
        take(&mut agents, &mut binds, &mut limit, ListenerEvent::Gone);
    }
    assert_eq!(limit.available(), 10);
}
