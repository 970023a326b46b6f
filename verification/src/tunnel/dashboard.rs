//! What the dashboard shows: the agents, the open ports, and the code that a phone scans.
use vstd::prelude::*;

use crate::address_text;
use crate::json::{self, Json};
use crate::net::SocketAddr;
use crate::registry;
use crate::text;
use crate::tunnel::api_reply;
use crate::tunnel::{
    AgentEntry, BindEntry, DeviceSnapshot, DeviceStatus, SOCKS_PORT_MAX, SOCKS_PORT_MIN,
};

verus! {

// ---------------------------------------------------------------------------------------------
// The agents
// ---------------------------------------------------------------------------------------------

/// What the dashboard shows of an agent.
#[derive(Debug)]
pub struct AgentRow {
    pub id: String,
    pub addr: SocketAddr,
    /// The handle of the traffic counter.
    pub usage: u64,
    pub os_type: u8,
    pub protocol_version: u8,
    pub resetting: bool,
    pub reset_token: String,
    /// Whether another agent has the same address.
    pub shared_ip: bool,
    pub device: Option<DeviceSnapshot>,
}

/// Whether a report is a copy of another.
pub open spec fn same_status(a: DeviceStatus, b: DeviceStatus) -> bool {
    &&& a.carrier@ == b.carrier@
    &&& a.net@ == b.net@
    &&& a.signal == b.signal
    &&& a.battery == b.battery
    &&& a.temp_c_bits == b.temp_c_bits
    &&& a.charging == b.charging
    &&& a.health@ == b.health@
    &&& a.app@ == b.app@
    &&& a.proto == b.proto
    &&& a.assistant == b.assistant
    &&& a.transport@ == b.transport@
}

/// Whether a report with its times is a copy of another.
pub open spec fn same_snapshot(a: Option<DeviceSnapshot>, b: Option<DeviceSnapshot>) -> bool {
    match (a, b) {
        (Some(a), Some(b)) => {
            &&& same_status(a.device, b.device)
            &&& a.received_at == b.received_at
            &&& a.received == b.received
        },
        (None, None) => true,
        _ => false,
    }
}

/// A copy of a report with its times.
fn copy_snapshot(snapshot: &Option<DeviceSnapshot>) -> (res: Option<DeviceSnapshot>)
    ensures
        same_snapshot(res, *snapshot),
{
    match snapshot {
        Some(snapshot) => {
            let device = &snapshot.device;
            Some(
                DeviceSnapshot {
                    device: DeviceStatus {
                        carrier: text::copy_text(device.carrier.as_str()),
                        net: text::copy_text(device.net.as_str()),
                        signal: device.signal,
                        battery: device.battery,
                        temp_c_bits: device.temp_c_bits,
                        charging: device.charging,
                        health: text::copy_text(device.health.as_str()),
                        app: text::copy_text(device.app.as_str()),
                        proto: device.proto,
                        assistant: device.assistant,
                        transport: text::copy_text(device.transport.as_str()),
                    },
                    received_at: snapshot.received_at,
                    received: snapshot.received,
                },
            )
        },
        None => None,
    }
}

/// Whether another agent has the address of the agent with this name.
pub open spec fn shares_ip(agents: Map<Seq<char>, AgentEntry>, name: Seq<char>) -> bool {
    exists|other: Seq<char>| #[trigger]
        agents.contains_key(other) && other != name && agents[other].addr.ip_spec()
            == agents[name].addr.ip_spec()
}

/// Whether a row shows an agent, but for whether its address is shared.
pub open spec fn shows_entry(row: AgentRow, entry: AgentEntry) -> bool {
    &&& row.addr == entry.addr
    &&& row.usage == entry.usage
    &&& row.os_type == entry.os_type
    &&& row.protocol_version == entry.protocol_version
    &&& row.resetting == entry.resetting
    &&& row.reset_token@ == entry.reset_token@
    &&& same_snapshot(row.device, entry.device)
}

/// Whether rows show each agent once.
pub open spec fn shows_agents(rows: Seq<AgentRow>, agents: Map<Seq<char>, AgentEntry>) -> bool {
    &&& forall|i: int|
        0 <= i < rows.len() ==> agents.contains_key((#[trigger] rows[i]).id@) && shows_entry(
            rows[i],
            agents[rows[i].id@],
        ) && rows[i].shared_ip == shares_ip(agents, rows[i].id@)
    &&& forall|name: Seq<char>| #[trigger]
        agents.contains_key(name) ==> exists|i: int| 0 <= i < rows.len() && rows[i].id@ == name
    &&& forall|i: int, j: int|
        0 <= i < j < rows.len() ==> (#[trigger] rows[i]).id@ != (#[trigger] rows[j]).id@
}

/// Whether rows show each agent once, but for whether its address is shared.
spec fn lists_agents(rows: Seq<AgentRow>, agents: Map<Seq<char>, AgentEntry>) -> bool {
    &&& forall|i: int|
        0 <= i < rows.len() ==> agents.contains_key((#[trigger] rows[i]).id@) && shows_entry(
            rows[i],
            agents[rows[i].id@],
        )
    &&& forall|name: Seq<char>| #[trigger]
        agents.contains_key(name) ==> exists|i: int| 0 <= i < rows.len() && rows[i].id@ == name
    &&& forall|i: int, j: int|
        0 <= i < j < rows.len() ==> (#[trigger] rows[i]).id@ != (#[trigger] rows[j]).id@
}

/// A row for each agent, in no particular order.
fn list_agents(agents: &mut dashmap::DashMap<String, AgentEntry>) -> (res: Vec<AgentRow>)
    ensures
        registry::agents(*final(agents)) == registry::agents(*old(agents)),
        lists_agents(res@, registry::agents(*old(agents))),
{
    let ghost before = registry::agents(*agents);
    let names = registry::agents_keys(agents);
    let mut res: Vec<AgentRow> = Vec::new();
    let n: usize = names.len();
    let mut i: usize = 0;
    while i < n
        invariant
            i <= n,
            n == names@.len(),
            before == registry::agents(*old(agents)),
            registry::agents(*agents) == before,
            forall|k: int| 0 <= k < names@.len() ==> before.contains_key((#[trigger] names@[k])@),
            res@.len() == i,
            forall|k: int|
                0 <= k < i ==> (#[trigger] res@[k]).id@ == names@[k]@ && shows_entry(
                    res@[k],
                    before[names@[k]@],
                ),
        decreases n - i,
    {
        assert(before.contains_key(names@[i as int]@));
        if let Some(entry) = registry::agents_remove(agents, names[i].as_str()) {
            res.push(
                AgentRow {
                    id: text::copy_text(names[i].as_str()),
                    addr: entry.addr,
                    usage: entry.usage,
                    os_type: entry.os_type,
                    protocol_version: entry.protocol_version,
                    resetting: entry.resetting,
                    reset_token: text::copy_text(entry.reset_token.as_str()),
                    shared_ip: false,
                    device: copy_snapshot(&entry.device),
                },
            );
            registry::agents_insert(agents, text::copy_text(names[i].as_str()), entry);
            assert(registry::agents(*agents) =~= before);
        }
        i += 1;
    }
    proof {
        assert forall|name: Seq<char>| #[trigger] before.contains_key(name) implies exists|k: int|
            0 <= k < res@.len() && res@[k].id@ == name by {
            let k = choose|k: int| 0 <= k < names@.len() && names@[k]@ == name;
            assert(res@[k].id@ == name);
        }
        assert forall|p: int, q: int| 0 <= p < q < res@.len() implies (#[trigger] res@[p]).id@ != (
        #[trigger] res@[q]).id@ by {
            assert(names@[p]@ != names@[q]@);
        }
    }
    res
}

/// Whether the address of a row is that of another.
fn is_shared(rows: &Vec<AgentRow>, i: usize) -> (res: bool)
    requires
        i < rows@.len(),
    ensures
        res == exists|k: int|
            0 <= k < rows@.len() && k != i && (#[trigger] rows@[k]).addr.ip_spec()
                == rows@[i as int].addr.ip_spec(),
{
    let n: usize = rows.len();
    let mut k: usize = 0;
    while k < n
        invariant
            k <= n,
            n == rows@.len(),
            i < n,
            forall|j: int|
                0 <= j < k && j != i ==> (#[trigger] rows@[j]).addr.ip_spec()
                    != rows@[i as int].addr.ip_spec(),
        decreases n - k,
    {
        if k != i && rows[k].addr.ip() == rows[i].addr.ip() {
            return true;
        }
        k += 1;
    }
    false
}

/// A row for each agent, in no particular order.
pub fn agent_rows(agents: &mut dashmap::DashMap<String, AgentEntry>) -> (res: Vec<AgentRow>)
    ensures
        registry::agents(*final(agents)) == registry::agents(*old(agents)),
        shows_agents(res@, registry::agents(*old(agents))),
{
    let ghost all = registry::agents(*agents);
    let mut rows = list_agents(agents);
    let n: usize = rows.len();
    let mut i: usize = 0;
    while i < n
        invariant
            i <= n,
            n == rows@.len(),
            lists_agents(rows@, all),
            forall|k: int|
                0 <= k < i ==> (#[trigger] rows@[k]).shared_ip == shares_ip(all, rows@[k].id@),
        decreases n - i,
    {
        let shared = is_shared(&rows, i);
        let ghost before = rows@;
        proof {
            let name = before[i as int].id@;
            if shared {
                let k = choose|k: int|
                    0 <= k < before.len() && k != i && (#[trigger] before[k]).addr.ip_spec()
                        == before[i as int].addr.ip_spec();
                assert(all.contains_key(before[k].id@));
                if k < i {
                    assert(before[k].id@ != before[i as int].id@);
                } else {
                    assert(before[i as int].id@ != before[k].id@);
                }
                assert(shares_ip(all, name));
            } else if shares_ip(all, name) {
                let other = choose|other: Seq<char>| #[trigger]
                    all.contains_key(other) && other != name && all[other].addr.ip_spec()
                        == all[name].addr.ip_spec();
                let k = choose|k: int| 0 <= k < before.len() && before[k].id@ == other;
                assert(before[k].addr.ip_spec() == before[i as int].addr.ip_spec());
            }
        }
        rows[i].shared_ip = shared;
        proof {
            let after = rows@;
            assert(after.len() == before.len());
            assert forall|k: int| 0 <= k < after.len() implies (#[trigger] after[k]).id@
                == before[k].id@ && shows_entry(after[k], all[after[k].id@]) && all.contains_key(
                after[k].id@,
            ) by {
                assert(shows_entry(before[k], all[before[k].id@]));
            }
            assert forall|name: Seq<char>| #[trigger] all.contains_key(name) implies exists|k: int|
                0 <= k < after.len() && after[k].id@ == name by {
                let k = choose|k: int| 0 <= k < before.len() && before[k].id@ == name;
                assert(after[k].id@ == name);
            }
            assert forall|p: int, q: int|
                0 <= p < q < after.len() implies (#[trigger] after[p]).id@ != (
            #[trigger] after[q]).id@ by {
                assert(before[p].id@ != before[q].id@);
            }
        }
        i += 1;
    }
    rows
}

// ---------------------------------------------------------------------------------------------
// The open ports
// ---------------------------------------------------------------------------------------------

/// What the dashboard shows of an open port.
#[derive(Debug)]
pub struct BindRow {
    pub port: u16,
    pub agent_id: String,
    pub user: String,
    pub pass: String,
    /// The handle of the traffic counter.
    pub usage: u64,
    /// The handle of the connection limit.
    pub connection_limit: u64,
    pub max_conns: usize,
}

/// The text of an optional string, empty where there is none.
pub open spec fn or_empty(value: Option<String>) -> Seq<char> {
    match value {
        Some(text) => text@,
        None => seq![],
    }
}

/// Whether a row shows an open port.
pub open spec fn shows_bind(row: BindRow, entry: BindEntry) -> bool {
    &&& row.agent_id@ == entry.agent_id@
    &&& row.user@ == or_empty(entry.user)
    &&& row.pass@ == or_empty(entry.pass)
    &&& row.usage == entry.usage
    &&& row.connection_limit == entry.connection_limit
    &&& row.max_conns == entry.max_conns
}

/// Whether rows show each open port once.
pub open spec fn shows_binds(rows: Seq<BindRow>, binds: Map<u16, BindEntry>) -> bool {
    &&& forall|i: int|
        0 <= i < rows.len() ==> binds.contains_key((#[trigger] rows[i]).port) && shows_bind(
            rows[i],
            binds[rows[i].port],
        )
    &&& forall|port: u16| #[trigger]
        binds.contains_key(port) ==> exists|i: int| 0 <= i < rows.len() && rows[i].port == port
    &&& forall|i: int, j: int|
        0 <= i < j < rows.len() ==> (#[trigger] rows[i]).port != (#[trigger] rows[j]).port
}

/// An optional string, empty where there is none.
fn unwrap_text(value: &Option<String>) -> (res: String)
    ensures
        res@ == or_empty(*value),
{
    match value {
        Some(text) => text::copy_text(text.as_str()),
        None => {
            let res = String::new();
            assert(res@ =~= seq![]);
            res
        },
    }
}

/// A row for each open port, in no particular order.
pub fn bind_rows(binds: &mut dashmap::DashMap<u16, BindEntry>) -> (res: Vec<BindRow>)
    ensures
        registry::binds(*final(binds)) == registry::binds(*old(binds)),
        shows_binds(res@, registry::binds(*old(binds))),
{
    let ghost before = registry::binds(*binds);
    let ports = registry::binds_keys(binds);
    let mut res: Vec<BindRow> = Vec::new();
    let n: usize = ports.len();
    let mut i: usize = 0;
    while i < n
        invariant
            i <= n,
            n == ports@.len(),
            before == registry::binds(*old(binds)),
            registry::binds(*binds) == before,
            forall|k: int| 0 <= k < ports@.len() ==> before.contains_key(#[trigger] ports@[k]),
            res@.len() == i,
            forall|k: int|
                0 <= k < i ==> (#[trigger] res@[k]).port == ports@[k] && shows_bind(
                    res@[k],
                    before[ports@[k]],
                ),
        decreases n - i,
    {
        let port: u16 = ports[i];
        assert(before.contains_key(ports@[i as int]));
        if let Some(entry) = registry::binds_remove(binds, port) {
            res.push(
                BindRow {
                    port,
                    agent_id: text::copy_text(entry.agent_id.as_str()),
                    user: unwrap_text(&entry.user),
                    pass: unwrap_text(&entry.pass),
                    usage: entry.usage,
                    connection_limit: entry.connection_limit,
                    max_conns: entry.max_conns,
                },
            );
            registry::binds_insert(binds, port, entry);
            assert(registry::binds(*binds) =~= before);
        }
        i += 1;
    }
    proof {
        assert forall|port: u16| #[trigger] before.contains_key(port) implies exists|k: int|
            0 <= k < res@.len() && res@[k].port == port by {
            let k = choose|k: int| 0 <= k < ports@.len() && ports@[k] == port;
            assert(res@[k].port == port);
        }
        assert forall|p: int, q: int| 0 <= p < q < res@.len() implies (#[trigger] res@[p]).port != (
        #[trigger] res@[q]).port by {
            assert(ports@[p] != ports@[q]);
        }
    }
    res
}

// ---------------------------------------------------------------------------------------------
// The state as JSON
// ---------------------------------------------------------------------------------------------

/// An agent's row with its traffic as text and the temperature of its device as JSON.
#[derive(Debug)]
pub struct AgentShown {
    pub row: AgentRow,
    pub usage_mb: String,
    pub temp_c: serde_json::Value,
}

/// A port's row with its traffic as text, and how many more connections it takes.
#[derive(Debug)]
pub struct BindShown {
    pub row: BindRow,
    pub usage_mb: String,
    pub available: usize,
}

/// The path by which an agent is reset.
pub open spec fn reset_url(id: Seq<char>, token: Seq<char>) -> Seq<char> {
    "/"@ + id + "?reset_ip&token="@ + token
}

/// A device report as JSON, with its temperature.
pub open spec fn device_json(snapshot: Option<DeviceSnapshot>, temp_c: Json) -> Json {
    match snapshot {
        Some(snapshot) => Json::Object(
            Map::<Seq<char>, Json>::empty().insert(
                "carrier"@,
                Json::Text(snapshot.device.carrier@),
            ).insert("net"@, Json::Text(snapshot.device.net@)).insert(
                "signal"@,
                Json::Number(snapshot.device.signal as int),
            ).insert("battery"@, Json::Number(snapshot.device.battery as int)).insert(
                "temp_c"@,
                temp_c,
            ).insert("charging"@, Json::Bool(snapshot.device.charging)).insert(
                "health"@,
                Json::Text(snapshot.device.health@),
            ).insert("app"@, Json::Text(snapshot.device.app@)).insert(
                "proto"@,
                Json::Number(snapshot.device.proto as int),
            ).insert("assistant"@, Json::Bool(snapshot.device.assistant)).insert(
                "transport"@,
                Json::Text(snapshot.device.transport@),
            ).insert("received_at"@, Json::Number(snapshot.received_at as int)),
        ),
        None => Json::Null,
    }
}

/// An agent as JSON.
pub open spec fn agent_json(shown: AgentShown) -> Json {
    Json::Object(
        Map::<Seq<char>, Json>::empty().insert("id"@, Json::Text(shown.row.id@)).insert(
            "addr"@,
            Json::Text(address_text::socket_text(shown.row.addr)),
        ).insert("usage_mb"@, Json::Text(shown.usage_mb@)).insert(
            "os"@,
            Json::Text(
                if shown.row.os_type == 1 {
                    "Android"@
                } else {
                    "PC"@
                },
            ),
        ).insert("proto_version"@, Json::Number(shown.row.protocol_version as int)).insert(
            "device"@,
            device_json(shown.row.device, json::model(shown.temp_c)),
        ).insert(
            "status"@,
            Json::Text(
                if shown.row.resetting {
                    "resetting"@
                } else {
                    "connected"@
                },
            ),
        ).insert("shared_ip"@, Json::Bool(shown.row.shared_ip)).insert(
            "reset_url"@,
            Json::Text(reset_url(shown.row.id@, shown.row.reset_token@)),
        ),
    )
}

/// How many connections a port has: those it may take, without those it still takes.
pub open spec fn active_conns(max_conns: usize, available: usize) -> int {
    if max_conns >= available {
        max_conns - available
    } else {
        0
    }
}

/// An open port as JSON.
pub open spec fn bind_json(shown: BindShown) -> Json {
    Json::Object(
        Map::<Seq<char>, Json>::empty().insert(
            "port"@,
            Json::Number(shown.row.port as int),
        ).insert("agent_id"@, Json::Text(shown.row.agent_id@)).insert(
            "user"@,
            Json::Text(shown.row.user@),
        ).insert("pass"@, Json::Text(shown.row.pass@)).insert(
            "usage_mb"@,
            Json::Text(shown.usage_mb@),
        ).insert(
            "active_conns"@,
            Json::Number(active_conns(shown.row.max_conns, shown.available)),
        ).insert("max_conns"@, Json::Number(shown.row.max_conns as int)),
    )
}

/// The server's state as JSON.
pub open spec fn state_json(
    agents: Seq<AgentShown>,
    binds: Seq<BindShown>,
    socks_host: Seq<char>,
) -> Json {
    Json::Object(
        Map::<Seq<char>, Json>::empty().insert(
            "agents"@,
            Json::Array(agents.map_values(|shown: AgentShown| agent_json(shown))),
        ).insert(
            "binds"@,
            Json::Array(binds.map_values(|shown: BindShown| bind_json(shown))),
        ).insert("socks_host"@, Json::Text(socks_host)).insert(
            "socks_port_min"@,
            Json::Number(SOCKS_PORT_MIN as int),
        ).insert("socks_port_max"@, Json::Number(SOCKS_PORT_MAX as int)),
    )
}

/// A device report as JSON, with its temperature.
fn show_device(snapshot: &Option<DeviceSnapshot>, temp_c: serde_json::Value) -> (res:
    serde_json::Value)
    ensures
        json::model(res) == device_json(*snapshot, json::model(temp_c)),
{
    match snapshot {
        Some(snapshot) => {
            let device = &snapshot.device;
            let mut fields = json::no_fields();
            json::set_field(&mut fields, "carrier", json::text(device.carrier.as_str()));
            json::set_field(&mut fields, "net", json::text(device.net.as_str()));
            json::set_field(&mut fields, "signal", json::number(device.signal as u64));
            json::set_field(&mut fields, "battery", json::number(device.battery as u64));
            json::set_field(&mut fields, "temp_c", temp_c);
            json::set_field(&mut fields, "charging", json::boolean(device.charging));
            json::set_field(&mut fields, "health", json::text(device.health.as_str()));
            json::set_field(&mut fields, "app", json::text(device.app.as_str()));
            json::set_field(&mut fields, "proto", json::number(device.proto as u64));
            json::set_field(&mut fields, "assistant", json::boolean(device.assistant));
            json::set_field(&mut fields, "transport", json::text(device.transport.as_str()));
            json::set_field(&mut fields, "received_at", json::number(snapshot.received_at));
            json::object(fields)
        },
        None => json::null(),
    }
}

/// An agent as JSON.
fn show_agent(shown: AgentShown) -> (res: serde_json::Value)
    ensures
        json::model(res) == agent_json(shown),
{
    let row = shown.row;
    let url = text::join(
        text::join(text::join("/", row.id.as_str()).as_str(), "?reset_ip&token=").as_str(),
        row.reset_token.as_str(),
    );
    let mut fields = json::no_fields();
    json::set_field(&mut fields, "id", json::text(row.id.as_str()));
    json::set_field(&mut fields, "addr", json::text(row.addr.to_text().as_str()));
    json::set_field(&mut fields, "usage_mb", json::text(shown.usage_mb.as_str()));
    json::set_field(
        &mut fields,
        "os",
        json::text(
            if row.os_type == 1 {
                "Android"
            } else {
                "PC"
            },
        ),
    );
    json::set_field(&mut fields, "proto_version", json::number(row.protocol_version as u64));
    json::set_field(&mut fields, "device", show_device(&row.device, shown.temp_c));
    json::set_field(
        &mut fields,
        "status",
        json::text(
            if row.resetting {
                "resetting"
            } else {
                "connected"
            },
        ),
    );
    json::set_field(&mut fields, "shared_ip", json::boolean(row.shared_ip));
    json::set_field(&mut fields, "reset_url", json::text(url.as_str()));
    json::object(fields)
}

/// An open port as JSON.
fn show_bind(shown: &BindShown) -> (res: serde_json::Value)
    ensures
        json::model(res) == bind_json(*shown),
{
    let row = &shown.row;
    let active: usize = if row.max_conns >= shown.available {
        row.max_conns - shown.available
    } else {
        0
    };
    let mut fields = json::no_fields();
    json::set_field(&mut fields, "port", json::number(row.port as u64));
    json::set_field(&mut fields, "agent_id", json::text(row.agent_id.as_str()));
    json::set_field(&mut fields, "user", json::text(row.user.as_str()));
    json::set_field(&mut fields, "pass", json::text(row.pass.as_str()));
    json::set_field(&mut fields, "usage_mb", json::text(shown.usage_mb.as_str()));
    json::set_field(&mut fields, "active_conns", json::number(active as u64));
    json::set_field(&mut fields, "max_conns", json::number(row.max_conns as u64));
    json::object(fields)
}

/// The reply with the server's state.
pub fn state_reply(agents: Vec<AgentShown>, binds: Vec<BindShown>, socks_host: &str) -> (res: String)
    ensures
        res@ == api_reply::sized_closing_reply(
            json::rendered(state_json(agents@, binds@, socks_host@)),
        ),
{
    let ghost agents_json = agents@.map_values(|shown: AgentShown| agent_json(shown));
    let ghost binds_json = binds@.map_values(|shown: BindShown| bind_json(shown));
    let ghost all_agents = agents@;
    let mut agent_values: Vec<serde_json::Value> = Vec::new();
    assert(json::models(agent_values@) =~= agents_json.take(0));
    for shown in it: agents
        invariant
            it.seq() == all_agents,
            agents_json == all_agents.map_values(|shown: AgentShown| agent_json(shown)),
            json::models(agent_values@) == agents_json.take(it.index() as int),
    {
        let ghost before = agent_values@;
        agent_values.push(show_agent(shown));
        proof {
            assert(json::models(agent_values@) =~= json::models(before).push(agent_json(shown)));
            assert(agents_json.take(it.index() + 1) =~= agents_json.take(it.index() as int).push(
                agent_json(shown),
            ));
        }
    }
    assert(agents_json.take(all_agents.len() as int) =~= agents_json);
    let mut bind_values: Vec<serde_json::Value> = Vec::new();
    let n: usize = binds.len();
    let mut i: usize = 0;
    assert(json::models(bind_values@) =~= binds_json.take(0));
    while i < n
        invariant
            i <= n,
            n == binds@.len(),
            binds_json == binds@.map_values(|shown: BindShown| bind_json(shown)),
            json::models(bind_values@) == binds_json.take(i as int),
        decreases n - i,
    {
        let ghost before = bind_values@;
        bind_values.push(show_bind(&binds[i]));
        proof {
            assert(json::models(bind_values@) =~= json::models(before).push(
                bind_json(binds@[i as int]),
            ));
            assert(binds_json.take(i + 1) =~= binds_json.take(i as int).push(
                bind_json(binds@[i as int]),
            ));
        }
        i += 1;
    }
    assert(binds_json.take(n as int) =~= binds_json);
    let mut fields = json::no_fields();
    json::set_field(&mut fields, "agents", json::array(agent_values));
    json::set_field(&mut fields, "binds", json::array(bind_values));
    json::set_field(&mut fields, "socks_host", json::text(socks_host));
    json::set_field(&mut fields, "socks_port_min", json::number(SOCKS_PORT_MIN as u64));
    json::set_field(&mut fields, "socks_port_max", json::number(SOCKS_PORT_MAX as u64));
    let body = json::render(&json::object(fields));
    api_reply::reply_sized_and_close(body.as_str())
}

// ---------------------------------------------------------------------------------------------
// Every field shows what it is called after
// ---------------------------------------------------------------------------------------------

/// Each field of a device report in the state is the field of the same name of the recorded
/// report. Where there is no report, none is shown.
pub proof fn law_device_fields(snapshot: DeviceSnapshot, temp_c: Json)
    ensures
        ({
            let shown = device_json(Some(snapshot), temp_c);
            &&& json::field(shown, "carrier"@) == Some(Json::Text(snapshot.device.carrier@))
            &&& json::field(shown, "net"@) == Some(Json::Text(snapshot.device.net@))
            &&& json::field(shown, "signal"@) == Some(Json::Number(snapshot.device.signal as int))
            &&& json::field(shown, "battery"@) == Some(
                Json::Number(snapshot.device.battery as int),
            )
            &&& json::field(shown, "temp_c"@) == Some(temp_c)
            &&& json::field(shown, "charging"@) == Some(Json::Bool(snapshot.device.charging))
            &&& json::field(shown, "health"@) == Some(Json::Text(snapshot.device.health@))
            &&& json::field(shown, "app"@) == Some(Json::Text(snapshot.device.app@))
            &&& json::field(shown, "proto"@) == Some(Json::Number(snapshot.device.proto as int))
            &&& json::field(shown, "assistant"@) == Some(Json::Bool(snapshot.device.assistant))
            &&& json::field(shown, "transport"@) == Some(Json::Text(snapshot.device.transport@))
            &&& json::field(shown, "received_at"@) == Some(
                Json::Number(snapshot.received_at as int),
            )
        }),
        device_json(None, temp_c) == Json::Null,
{
    reveal_strlit("carrier");
    assert("carrier"@.len() == 7);
    reveal_strlit("net");
    assert("net"@.len() == 3);
    reveal_strlit("signal");
    assert("signal"@.len() == 6);
    reveal_strlit("battery");
    assert("battery"@.len() == 7);
    reveal_strlit("temp_c");
    assert("temp_c"@.len() == 6);
    reveal_strlit("charging");
    assert("charging"@.len() == 8);
    reveal_strlit("health");
    assert("health"@.len() == 6);
    reveal_strlit("app");
    assert("app"@.len() == 3);
    reveal_strlit("proto");
    assert("proto"@.len() == 5);
    reveal_strlit("assistant");
    assert("assistant"@.len() == 9);
    reveal_strlit("transport");
    assert("transport"@.len() == 9);
    reveal_strlit("received_at");
    assert("received_at"@.len() == 11);
    assert("carrier"@[0] != "battery"@[0]);
    assert("net"@[0] != "app"@[0]);
    assert("signal"@[0] != "temp_c"@[0]);
    assert("signal"@[0] != "health"@[0]);
    assert("temp_c"@[0] != "health"@[0]);
    assert("assistant"@[0] != "transport"@[0]);
}

/// Each field of an agent in the state is what it is called after: its name, address, traffic,
/// system, version, report, whether it changes its address or shares it, and where that change
/// is asked for.
pub proof fn law_agent_fields(shown: AgentShown)
    ensures
        ({
            let row = agent_json(shown);
            &&& json::field(row, "id"@) == Some(Json::Text(shown.row.id@))
            &&& json::field(row, "addr"@) == Some(
                Json::Text(address_text::socket_text(shown.row.addr)),
            )
            &&& json::field(row, "usage_mb"@) == Some(Json::Text(shown.usage_mb@))
            &&& json::field(row, "os"@) == Some(
                Json::Text(
                    if shown.row.os_type == 1 {
                        "Android"@
                    } else {
                        "PC"@
                    },
                ),
            )
            &&& json::field(row, "proto_version"@) == Some(
                Json::Number(shown.row.protocol_version as int),
            )
            &&& json::field(row, "device"@) == Some(
                device_json(shown.row.device, json::model(shown.temp_c)),
            )
            &&& json::field(row, "status"@) == Some(
                Json::Text(
                    if shown.row.resetting {
                        "resetting"@
                    } else {
                        "connected"@
                    },
                ),
            )
            &&& json::field(row, "shared_ip"@) == Some(Json::Bool(shown.row.shared_ip))
            &&& json::field(row, "reset_url"@) == Some(
                Json::Text("/"@ + shown.row.id@ + "?reset_ip&token="@ + shown.row.reset_token@),
            )
        }),
{
    reveal_strlit("id");
    assert("id"@.len() == 2);
    reveal_strlit("addr");
    assert("addr"@.len() == 4);
    reveal_strlit("usage_mb");
    assert("usage_mb"@.len() == 8);
    reveal_strlit("os");
    assert("os"@.len() == 2);
    reveal_strlit("proto_version");
    assert("proto_version"@.len() == 13);
    reveal_strlit("device");
    assert("device"@.len() == 6);
    reveal_strlit("status");
    assert("status"@.len() == 6);
    reveal_strlit("shared_ip");
    assert("shared_ip"@.len() == 9);
    reveal_strlit("reset_url");
    assert("reset_url"@.len() == 9);
    assert("id"@[0] != "os"@[0]);
    assert("device"@[0] != "status"@[0]);
    assert("shared_ip"@[0] != "reset_url"@[0]);
}

/// Each field of a port in the state is what it is called after. The connections that are open
/// are those that the limit allows and that are not free.
pub proof fn law_bind_fields(shown: BindShown)
    ensures
        ({
            let row = bind_json(shown);
            &&& json::field(row, "port"@) == Some(Json::Number(shown.row.port as int))
            &&& json::field(row, "agent_id"@) == Some(Json::Text(shown.row.agent_id@))
            &&& json::field(row, "user"@) == Some(Json::Text(shown.row.user@))
            &&& json::field(row, "pass"@) == Some(Json::Text(shown.row.pass@))
            &&& json::field(row, "usage_mb"@) == Some(Json::Text(shown.usage_mb@))
            &&& json::field(row, "max_conns"@) == Some(Json::Number(shown.row.max_conns as int))
            &&& shown.available <= shown.row.max_conns ==> json::field(row, "active_conns"@)
                == Some(Json::Number(shown.row.max_conns - shown.available))
            &&& shown.available > shown.row.max_conns ==> json::field(row, "active_conns"@) == Some(
                Json::Number(0),
            )
        }),
{
    reveal_strlit("port");
    assert("port"@.len() == 4);
    reveal_strlit("agent_id");
    assert("agent_id"@.len() == 8);
    reveal_strlit("user");
    assert("user"@.len() == 4);
    reveal_strlit("pass");
    assert("pass"@.len() == 4);
    reveal_strlit("usage_mb");
    assert("usage_mb"@.len() == 8);
    reveal_strlit("active_conns");
    assert("active_conns"@.len() == 12);
    reveal_strlit("max_conns");
    assert("max_conns"@.len() == 9);
    assert("port"@[1] != "pass"@[1]);
    assert("port"@[0] != "user"@[0]);
    assert("user"@[0] != "pass"@[0]);
    assert("agent_id"@[0] != "usage_mb"@[0]);
}

/// The state lists every agent and every port that is shown, in order, the host that clients
/// dial, and the ports that can be opened: 51300 to 51399.
pub proof fn law_state_fields(agents: Seq<AgentShown>, binds: Seq<BindShown>, host: Seq<char>)
    ensures
        ({
            let state = state_json(agents, binds, host);
            &&& json::field(state, "agents"@) matches Some(Json::Array(rows)) && rows.len()
                == agents.len() && forall|i: int|
                0 <= i < agents.len() ==> #[trigger] rows[i] == agent_json(agents[i])
            &&& json::field(state, "binds"@) matches Some(Json::Array(rows)) && rows.len()
                == binds.len() && forall|i: int|
                0 <= i < binds.len() ==> #[trigger] rows[i] == bind_json(binds[i])
            &&& json::field(state, "socks_host"@) == Some(Json::Text(host))
            &&& json::field(state, "socks_port_min"@) == Some(Json::Number(51300))
            &&& json::field(state, "socks_port_max"@) == Some(Json::Number(51399))
        }),
{
    reveal_strlit("agents");
    assert("agents"@.len() == 6);
    reveal_strlit("binds");
    assert("binds"@.len() == 5);
    reveal_strlit("socks_host");
    assert("socks_host"@.len() == 10);
    reveal_strlit("socks_port_min");
    assert("socks_port_min"@.len() == 14);
    reveal_strlit("socks_port_max");
    assert("socks_port_max"@.len() == 14);
    assert("socks_port_min"@[12] != "socks_port_max"@[12]);
}

/// Every connected agent has exactly one row, and the row holds what is known of it, its last
/// device report included. It is marked as sharing its address exactly if another agent has the
/// same one.
pub proof fn law_every_agent_is_shown(
    rows: Seq<AgentRow>,
    agents: Map<Seq<char>, AgentEntry>,
    name: Seq<char>,
)
    requires
        shows_agents(rows, agents),
    ensures
        agents.contains_key(name) <==> exists|i: int|
            0 <= i < rows.len() && (#[trigger] rows[i]).id@ == name,
        forall|i: int|
            0 <= i < rows.len() && (#[trigger] rows[i]).id@ == name ==> {
                let row = rows[i];
                let entry = agents[name];
                &&& row.addr == entry.addr
                &&& row.usage == entry.usage
                &&& row.os_type == entry.os_type
                &&& row.protocol_version == entry.protocol_version
                &&& row.resetting == entry.resetting
                &&& row.reset_token@ == entry.reset_token@
                &&& row.shared_ip <==> (exists|other: Seq<char>| #[trigger]
                    agents.contains_key(other) && other != name && agents[other].addr.ip_spec()
                        == entry.addr.ip_spec())
                &&& row.device is Some <==> entry.device is Some
                &&& row.device is Some ==> {
                    let a = row.device->0;
                    let b = entry.device->0;
                    &&& a.device.carrier@ == b.device.carrier@
                    &&& a.device.net@ == b.device.net@
                    &&& a.device.signal == b.device.signal
                    &&& a.device.battery == b.device.battery
                    &&& a.device.temp_c_bits == b.device.temp_c_bits
                    &&& a.device.charging == b.device.charging
                    &&& a.device.health@ == b.device.health@
                    &&& a.device.app@ == b.device.app@
                    &&& a.device.proto == b.device.proto
                    &&& a.device.assistant == b.device.assistant
                    &&& a.device.transport@ == b.device.transport@
                    &&& a.received_at == b.received_at
                    &&& a.received == b.received
                }
            },
        forall|i: int, j: int|
            0 <= i < rows.len() && 0 <= j < rows.len() && (#[trigger] rows[i]).id@ == (
            #[trigger] rows[j]).id@ ==> i == j,
{
    assert forall|i: int, j: int|
        0 <= i < rows.len() && 0 <= j < rows.len() && (#[trigger] rows[i]).id@ == (
        #[trigger] rows[j]).id@ implies i == j by {
        if i < j {
            assert(rows[i].id@ != rows[j].id@);
        } else if j < i {
            assert(rows[j].id@ != rows[i].id@);
        }
    }
    if agents.contains_key(name) {
        let i = choose|i: int| 0 <= i < rows.len() && rows[i].id@ == name;
        assert(rows[i].id@ == name);
    }
}

/// Every open port has exactly one row, which holds what it was opened with; a user name or a
/// password that it does not ask for is shown empty.
pub proof fn law_every_port_is_shown(rows: Seq<BindRow>, binds: Map<u16, BindEntry>, port: u16)
    requires
        shows_binds(rows, binds),
    ensures
        binds.contains_key(port) <==> exists|i: int|
            0 <= i < rows.len() && (#[trigger] rows[i]).port == port,
        forall|i: int|
            0 <= i < rows.len() && (#[trigger] rows[i]).port == port ==> {
                let row = rows[i];
                let entry = binds[port];
                &&& row.agent_id@ == entry.agent_id@
                &&& entry.user matches Some(user) ==> row.user@ == user@
                &&& entry.user is None ==> row.user@.len() == 0
                &&& entry.pass matches Some(pass) ==> row.pass@ == pass@
                &&& entry.pass is None ==> row.pass@.len() == 0
                &&& row.usage == entry.usage
                &&& row.connection_limit == entry.connection_limit
                &&& row.max_conns == entry.max_conns
            },
        forall|i: int, j: int|
            0 <= i < rows.len() && 0 <= j < rows.len() && (#[trigger] rows[i]).port == (
            #[trigger] rows[j]).port ==> i == j,
{
    assert forall|i: int, j: int|
        0 <= i < rows.len() && 0 <= j < rows.len() && (#[trigger] rows[i]).port == (
        #[trigger] rows[j]).port implies i == j by {
        if i < j {
            assert(rows[i].port != rows[j].port);
        } else if j < i {
            assert(rows[j].port != rows[i].port);
        }
    }
    if binds.contains_key(port) {
        let i = choose|i: int| 0 <= i < rows.len() && rows[i].port == port;
        assert(rows[i].port == port);
    }
}

} // verus!
