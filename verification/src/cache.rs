//! What is kept between runs: the server's open ports and the agents' traffic totals.
use vstd::prelude::*;

use crate::registry;
use crate::socks5::client::string_option;
use crate::text;
use crate::text_map::{self, TextMap};
use crate::tunnel::control::{larger, total_raised};
use crate::tunnel::{self, BindEntry, DEFAULT_MAX_CONNS, SOCKS_PORT_MAX, SOCKS_PORT_MIN};

verus! {

/// What the server keeps.
#[derive(Debug)]
pub struct ServerCache {
    pub binds: Vec<BindConfig>,
    pub agent_usage: Vec<AgentCache>,
}

/// An open port as it is kept.
#[derive(Debug)]
pub struct BindConfig {
    pub port: u16,
    pub agent_id: String,
    pub user: Option<String>,
    pub pass: Option<String>,
    pub usage: u64,
    pub max_conns: usize,
}

/// An agent's traffic total as it is kept.
#[derive(Debug)]
pub struct AgentCache {
    pub agent_id: String,
    pub cumulative_usage: u64,
}

/// The file in which something is kept.
#[derive(Debug)]
pub struct CacheManager {
    pub path: String,
}

impl Clone for BindConfig {
    fn clone(&self) -> (res: BindConfig)
        ensures
            res.port == self.port,
            res.agent_id@ == self.agent_id@,
            string_option(res.user) == string_option(self.user),
            string_option(res.pass) == string_option(self.pass),
            res.usage == self.usage,
            res.max_conns == self.max_conns,
    {
        BindConfig {
            port: self.port,
            agent_id: text::copy_text(self.agent_id.as_str()),
            user: copy_option(&self.user),
            pass: copy_option(&self.pass),
            usage: self.usage,
            max_conns: self.max_conns,
        }
    }
}

impl Clone for AgentCache {
    fn clone(&self) -> (res: AgentCache)
        ensures
            res.agent_id@ == self.agent_id@,
            res.cumulative_usage == self.cumulative_usage,
    {
        AgentCache {
            agent_id: text::copy_text(self.agent_id.as_str()),
            cumulative_usage: self.cumulative_usage,
        }
    }
}

impl Default for ServerCache {
    fn default() -> (res: ServerCache)
        ensures
            res.binds@ == Seq::<BindConfig>::empty(),
            res.agent_usage@ == Seq::<AgentCache>::empty(),
    {
        ServerCache { binds: Vec::new(), agent_usage: Vec::new() }
    }
}

impl Default for AgentCache {
    fn default() -> (res: AgentCache)
        ensures
            res.agent_id@ == Seq::<char>::empty(),
            res.cumulative_usage == 0,
    {
        AgentCache { agent_id: String::new(), cumulative_usage: 0 }
    }
}

impl CacheManager {
    /// The file at a path.
    pub fn new(path: &str) -> (res: CacheManager)
        ensures
            res.path@ == path@,
    {
        CacheManager { path: text::copy_text(path) }
    }
}

/// How many connections a port takes where nothing is kept of that.
pub fn default_max_conns() -> (res: usize)
    ensures
        res == DEFAULT_MAX_CONNS,
{
    DEFAULT_MAX_CONNS
}

/// What an agent starts with: its configured name, and the total that was kept.
pub fn adopt_agent_cache(cache: AgentCache, agent_id: &str) -> (res: AgentCache)
    ensures
        res.agent_id@ == agent_id@,
        res.cumulative_usage == cache.cumulative_usage,
{
    AgentCache { agent_id: text::copy_text(agent_id), cumulative_usage: cache.cumulative_usage }
}

// ---------------------------------------------------------------------------------------------
// Starting the server
// ---------------------------------------------------------------------------------------------

/// What becomes of a port that was kept.
#[derive(Clone, Copy, Debug, PartialEq, Eq, Structural)]
pub enum Restore {
    /// It is opened again.
    Listen,
    /// It has no user name or no password, and would be open to everyone.
    MissingCredentials,
    /// It is none that a proxy may listen on.
    PortRange,
}

/// What becomes of a port that was kept, by what is kept of it.
pub open spec fn fate_of(bind: BindConfig) -> Restore {
    if bind.user is Some && bind.pass is Some {
        if 51300 <= bind.port <= 51399 {
            Restore::Listen
        } else {
            Restore::PortRange
        }
    } else {
        Restore::MissingCredentials
    }
}

/// What becomes of a port that was kept.
pub fn restore_bind(bind: &BindConfig) -> (res: Restore)
    ensures
        res == fate_of(*bind),
        res == (if bind.user is None || bind.pass is None {
            Restore::MissingCredentials
        } else if !(SOCKS_PORT_MIN <= bind.port <= SOCKS_PORT_MAX) {
            Restore::PortRange
        } else {
            Restore::Listen
        }),
{
    match (&bind.user, &bind.pass) {
        (Some(_), Some(_)) => {
            if tunnel::is_socks_port(bind.port) {
                Restore::Listen
            } else {
                Restore::PortRange
            }
        },
        _ => Restore::MissingCredentials,
    }
}

/// The handles of an open port: its traffic counter, its connection limit and the channel that
/// shuts it down.
#[derive(Clone, Copy, Debug, PartialEq, Eq, Structural)]
pub struct BindHandles {
    pub usage: u64,
    pub connection_limit: u64,
    pub shutdown: u64,
}

/// Whether an entry is that of a port that was opened with these settings.
pub open spec fn opened(entry: BindEntry, bind: BindConfig, handles: BindHandles) -> bool {
    &&& entry.agent_id@ == bind.agent_id@
    &&& entry.port == bind.port
    &&& entry.usage == handles.usage
    &&& entry.max_conns == bind.max_conns
    &&& entry.connection_limit == handles.connection_limit
    &&& string_option(entry.user) == string_option(bind.user)
    &&& string_option(entry.pass) == string_option(bind.pass)
    &&& entry.shutdown == Some(handles.shutdown)
}

/// Notes that a port is open.
pub fn open_bind(
    binds: &mut dashmap::DashMap<u16, BindEntry>,
    bind: BindConfig,
    handles: BindHandles,
)
    ensures
        ({
            let before = registry::binds(*old(binds));
            let after = registry::binds(*final(binds));
            &&& after.contains_key(bind.port)
            &&& after == before.insert(bind.port, after[bind.port])
            &&& opened(after[bind.port], bind, handles)
        }),
{
    let port: u16 = bind.port;
    let ghost before = registry::binds(*binds);
    let entry = BindEntry {
        agent_id: bind.agent_id,
        port,
        usage: handles.usage,
        max_conns: bind.max_conns,
        connection_limit: handles.connection_limit,
        user: bind.user,
        pass: bind.pass,
        shutdown: Some(handles.shutdown),
    };
    registry::binds_insert(binds, port, entry);
    proof {
        let after = registry::binds(*binds);
        assert(after =~= before.insert(port, after[port]));
    }
}

/// Notes that a port is closed.
pub fn close_bind(binds: &mut dashmap::DashMap<u16, BindEntry>, port: u16)
    ensures
        registry::binds(*final(binds)) == registry::binds(*old(binds)).remove(port),
{
    let _ = registry::binds_remove(binds, port);
}

/// Totals with those of a list taken over; of two for one agent the later counts.
pub open spec fn totals_with(totals: Map<Seq<char>, u64>, list: Seq<AgentCache>) -> Map<
    Seq<char>,
    u64,
>
    decreases list.len(),
{
    if list.len() == 0 {
        totals
    } else {
        totals_with(totals, list.drop_last()).insert(
            list.last().agent_id@,
            list.last().cumulative_usage,
        )
    }
}

/// Takes over the totals that were kept.
pub fn load_usage(cumulative_usage: &mut dashmap::DashMap<String, u64>, list: &Vec<AgentCache>)
    ensures
        registry::numbers(*final(cumulative_usage)) == totals_with(
            registry::numbers(*old(cumulative_usage)),
            list@,
        ),
{
    let ghost before = registry::numbers(*cumulative_usage);
    let n: usize = list.len();
    let mut i: usize = 0;
    assert(list@.take(0) =~= seq![]);
    while i < n
        invariant
            i <= n,
            n == list@.len(),
            before == registry::numbers(*old(cumulative_usage)),
            registry::numbers(*cumulative_usage) == totals_with(before, list@.take(i as int)),
        decreases n - i,
    {
        registry::numbers_insert(
            cumulative_usage,
            text::copy_text(list[i].agent_id.as_str()),
            list[i].cumulative_usage,
        );
        proof {
            assert(list@.take(i + 1).drop_last() =~= list@.take(i as int));
            assert(list@.take(i + 1).last() == list@[i as int]);
        }
        i += 1;
    }
    assert(list@.take(n as int) =~= list@);
}

// ---------------------------------------------------------------------------------------------
// Saving
// ---------------------------------------------------------------------------------------------

/// Whether settings are those of an open port, with a traffic total.
pub open spec fn kept_of(config: BindConfig, port: u16, entry: BindEntry, usage: u64) -> bool {
    &&& config.port == port
    &&& config.agent_id@ == entry.agent_id@
    &&& string_option(config.user) == string_option(entry.user)
    &&& string_option(config.pass) == string_option(entry.pass)
    &&& config.usage == usage
    &&& config.max_conns == entry.max_conns
}

/// The total of a counter, where a list has it.
pub open spec fn counter_total(counters: Seq<(u64, u64)>, handle: u64) -> u64
    decreases counters.len(),
{
    if counters.len() == 0 {
        0
    } else if counters[0].0 == handle {
        counters[0].1
    } else {
        counter_total(counters.skip(1), handle)
    }
}

/// The total of a counter, where a list has it.
fn find_total(counters: &Vec<(u64, u64)>, handle: u64) -> (res: u64)
    ensures
        res == counter_total(counters@, handle),
{
    let n: usize = counters.len();
    let mut i: usize = 0;
    assert(counters@.skip(0) =~= counters@);
    while i < n
        invariant
            i <= n,
            n == counters@.len(),
            counter_total(counters@.skip(i as int), handle) == counter_total(counters@, handle),
        decreases n - i,
    {
        assert(counters@.skip(i as int).skip(1) =~= counters@.skip(i + 1));
        if counters[i].0 == handle {
            return counters[i].1;
        }
        i += 1;
    }
    0
}

/// A copy of an optional string.
pub fn copy_option(value: &Option<String>) -> (res: Option<String>)
    ensures
        string_option(res) == string_option(*value),
{
    match value {
        Some(text) => Some(text::copy_text(text.as_str())),
        None => None,
    }
}

/// Whether a list holds each open port once, as it is kept.
pub open spec fn keeps_binds(
    list: Seq<BindConfig>,
    binds: Map<u16, BindEntry>,
    counters: Seq<(u64, u64)>,
) -> bool {
    &&& forall|i: int|
        0 <= i < list.len() ==> binds.contains_key((#[trigger] list[i]).port) && kept_of(
            list[i],
            list[i].port,
            binds[list[i].port],
            counter_total(counters, binds[list[i].port].usage),
        )
    &&& forall|port: u16| #[trigger]
        binds.contains_key(port) ==> exists|i: int| 0 <= i < list.len() && list[i].port == port
    &&& forall|i: int, j: int|
        0 <= i < j < list.len() ==> (#[trigger] list[i]).port != (#[trigger] list[j]).port
}

/// The open ports as they are kept, in no particular order.
fn keep_binds(
    binds: &mut dashmap::DashMap<u16, BindEntry>,
    counters: &Vec<(u64, u64)>,
) -> (res: Vec<BindConfig>)
    ensures
        registry::binds(*final(binds)) == registry::binds(*old(binds)),
        keeps_binds(res@, registry::binds(*old(binds)), counters@),
{
    let ghost before = registry::binds(*binds);
    let ports = registry::binds_keys(binds);
    let mut res: Vec<BindConfig> = Vec::new();
    let n: usize = ports.len();
    let mut i: usize = 0;
    while i < n
        invariant
            i <= n,
            n == ports@.len(),
            before == registry::binds(*old(binds)),
            registry::binds(*binds) == before,
            forall|k: int| 0 <= k < ports@.len() ==> before.contains_key(#[trigger] ports@[k]),
            res@.len() == i,
            forall|k: int|
                0 <= k < i ==> (#[trigger] res@[k]).port == ports@[k] && kept_of(
                    res@[k],
                    ports@[k],
                    before[ports@[k]],
                    counter_total(counters@, before[ports@[k]].usage),
                ),
        decreases n - i,
    {
        let port: u16 = ports[i];
        assert(before.contains_key(ports@[i as int]));
        if let Some(entry) = registry::binds_remove(binds, port) {
            res.push(
                BindConfig {
                    port,
                    agent_id: text::copy_text(entry.agent_id.as_str()),
                    user: copy_option(&entry.user),
                    pass: copy_option(&entry.pass),
                    usage: find_total(counters, entry.usage),
                    max_conns: entry.max_conns,
                },
            );
            registry::binds_insert(binds, port, entry);
            assert(registry::binds(*binds) =~= before);
        }
        i += 1;
    }
    proof {
        assert forall|port: u16| #[trigger] before.contains_key(port) implies exists|k: int|
            0 <= k < res@.len() && res@[k].port == port by {
            let k = choose|k: int| 0 <= k < ports@.len() && ports@[k] == port;
            assert(res@[k].port == port);
        }
        assert forall|p: int, q: int| 0 <= p < q < res@.len() implies (#[trigger] res@[p]).port != (
        #[trigger] res@[q]).port by {
            assert(ports@[p] != ports@[q]);
        }
    }
    res
}

/// Totals with each raised to what its agent's counter says now.
pub open spec fn totals_raised(totals: Map<Seq<char>, u64>, live: Seq<(String, u64)>) -> Map<
    Seq<char>,
    u64,
>
    decreases live.len(),
{
    if live.len() == 0 {
        totals
    } else {
        total_raised(totals_raised(totals, live.drop_last()), live.last().0@, live.last().1)
    }
}

/// Whether a list holds each agent's total once, in the order of the agents' names.
pub open spec fn keeps_usage(list: Seq<AgentCache>, totals: Map<Seq<char>, u64>) -> bool {
    &&& forall|i: int|
        0 <= i < list.len() ==> totals.contains_pair(
            (#[trigger] list[i]).agent_id@,
            list[i].cumulative_usage,
        )
    &&& forall|name: Seq<char>| #[trigger]
        totals.contains_key(name) ==> exists|i: int|
            0 <= i < list.len() && list[i].agent_id@ == name
    &&& forall|i: int, j: int|
        0 <= i < j < list.len() ==> text_map::precedes(
            (#[trigger] list[i]).agent_id@,
            (#[trigger] list[j]).agent_id@,
        )
}

/// A map with the same totals.
fn copy_totals(totals: &dashmap::DashMap<String, u64>) -> (res: TextMap)
    ensures
        res.wf(),
        res@ == registry::numbers(*totals),
{
    let ghost all = registry::numbers(*totals);
    let items = registry::numbers_items(totals);
    let mut res = TextMap::new();
    let n: usize = items.len();
    let mut i: usize = 0;
    while i < n
        invariant
            i <= n,
            n == items@.len(),
            registry::lists(items@, all),
            res.wf(),
            forall|name: Seq<char>| #[trigger]
                res@.contains_key(name) ==> all.contains_pair(name, res@[name]),
            forall|k: int| 0 <= k < i ==> res@.contains_key((#[trigger] items@[k]).0@),
        decreases n - i,
    {
        let ghost before = res@;
        res.insert(text::copy_text(items[i].0.as_str()), items[i].1);
        proof {
            assert(all.contains_pair(items@[i as int].0@, items@[i as int].1));
            assert forall|name: Seq<char>| #[trigger]
                res@.contains_key(name) implies all.contains_pair(name, res@[name]) by {
                if name != items@[i as int].0@ {
                    assert(before.contains_key(name));
                }
            }
            assert forall|k: int| 0 <= k < i + 1 implies res@.contains_key(
                (#[trigger] items@[k]).0@,
            ) by {
                if k < i {
                    assert(before.contains_key(items@[k].0@));
                }
            }
        }
        i += 1;
    }
    proof {
        assert forall|name: Seq<char>| #[trigger]
            all.contains_key(name) implies res@.contains_key(name) by {
            assert(all.dom().contains(name));
            let k = choose|k: int| 0 <= k < items@.len() && items@[k].0@ == name;
            assert(res@.contains_key(items@[k].0@));
        }
        assert(res@ =~= all);
    }
    res
}

/// The agents' totals as they are kept: the larger of the known total and what the counter says.
fn keep_usage(
    cumulative_usage: &dashmap::DashMap<String, u64>,
    live: &Vec<(String, u64)>,
) -> (res: Vec<AgentCache>)
    ensures
        keeps_usage(res@, totals_raised(registry::numbers(*cumulative_usage), live@)),
{
    let ghost known = registry::numbers(*cumulative_usage);
    let mut totals = copy_totals(cumulative_usage);
    let n: usize = live.len();
    let mut i: usize = 0;
    assert(live@.take(0) =~= seq![]);
    while i < n
        invariant
            i <= n,
            n == live@.len(),
            totals.wf(),
            totals@ == totals_raised(known, live@.take(i as int)),
        decreases n - i,
    {
        let usage: u64 = live[i].1;
        let total: u64 = match totals.get(live[i].0.as_str()) {
            Some(total) => if total >= usage {
                total
            } else {
                usage
            },
            None => usage,
        };
        totals.insert(text::copy_text(live[i].0.as_str()), total);
        proof {
            assert(live@.take(i + 1).drop_last() =~= live@.take(i as int));
            assert(live@.take(i + 1).last() == live@[i as int]);
        }
        i += 1;
    }
    assert(live@.take(n as int) =~= live@);
    let names = totals.sorted_keys();
    let mut res: Vec<AgentCache> = Vec::new();
    let m: usize = names.len();
    let mut k: usize = 0;
    while k < m
        invariant
            k <= m,
            m == names@.len(),
            totals.wf(),
            text_map::texts_of(names@) == totals@.dom(),
            res@.len() == k,
            forall|j: int|
                0 <= j < k ==> (#[trigger] res@[j]).agent_id@ == names@[j]@ && totals@.contains_pair(
                    res@[j].agent_id@,
                    res@[j].cumulative_usage,
                ),
        decreases m - k,
    {
        assert(text_map::texts_of(names@).contains(names@[k as int]@));
        let total: u64 = match totals.get(names[k].as_str()) {
            Some(total) => total,
            None => 0,
        };
        res.push(
            AgentCache {
                agent_id: text::copy_text(names[k].as_str()),
                cumulative_usage: total,
            },
        );
        k += 1;
    }
    proof {
        assert forall|name: Seq<char>| #[trigger] totals@.contains_key(name) implies exists|j: int|
            0 <= j < res@.len() && res@[j].agent_id@ == name by {
            assert(text_map::texts_of(names@).contains(name));
            let j = choose|j: int| 0 <= j < names@.len() && (#[trigger] names@[j])@ == name;
            assert(res@[j].agent_id@ == name);
        }
        assert forall|p: int, q: int| 0 <= p < q < res@.len() implies text_map::precedes(
            (#[trigger] res@[p]).agent_id@,
            (#[trigger] res@[q]).agent_id@,
        ) by {
            assert(text_map::precedes(names@[p]@, names@[q]@));
        }
    }
    res
}

/// What the server keeps: its open ports and its agents' totals. `counters` holds the totals of
/// the ports' counters by their handles, and `live` those of the connected agents.
pub fn save_server_cache(
    binds: &mut dashmap::DashMap<u16, BindEntry>,
    counters: &Vec<(u64, u64)>,
    cumulative_usage: &dashmap::DashMap<String, u64>,
    live: &Vec<(String, u64)>,
) -> (res: ServerCache)
    ensures
        registry::binds(*final(binds)) == registry::binds(*old(binds)),
        keeps_binds(res.binds@, registry::binds(*old(binds)), counters@),
        keeps_usage(
            res.agent_usage@,
            totals_raised(registry::numbers(*cumulative_usage), live@),
        ),
{
    ServerCache {
        binds: keep_binds(binds, counters),
        agent_usage: keep_usage(cumulative_usage, live),
    }
}

// ---------------------------------------------------------------------------------------------
// Laws
// ---------------------------------------------------------------------------------------------

/// A total is never kept smaller than it was known to be, or than an agent's counter says.
pub proof fn law_kept_totals_do_not_shrink(
    totals: Map<Seq<char>, u64>,
    live: Seq<(String, u64)>,
    name: Seq<char>,
    i: int,
)
    ensures
        totals.contains_key(name) ==> totals_raised(totals, live).contains_key(name)
            && totals_raised(totals, live)[name] >= totals[name],
        0 <= i < live.len() ==> totals_raised(totals, live).contains_key(live[i].0@)
            && totals_raised(totals, live)[live[i].0@] >= live[i].1,
    decreases live.len(),
{
    if live.len() > 0 {
        law_kept_totals_do_not_shrink(totals, live.drop_last(), name, i);
        if 0 <= i < live.len() - 1 {
            assert(live.drop_last()[i] == live[i]);
        }
    }
}

/// A port that was opened with a user name and a password comes back as it was: what is kept of
/// it is opened again with the same settings.
pub proof fn law_kept_bind_is_restored(
    config: BindConfig,
    port: u16,
    entry: BindEntry,
    usage: u64,
    again: BindEntry,
    handles: BindHandles,
)
    requires
        kept_of(config, port, entry, usage),
        opened(again, config, handles),
    ensures
        again.agent_id@ == entry.agent_id@,
        again.port == port,
        string_option(again.user) == string_option(entry.user),
        string_option(again.pass) == string_option(entry.pass),
        again.max_conns == entry.max_conns,
{
}

/// A port that was kept is opened again exactly if it has a user name and a password and is one
/// of 51300 to 51399; one without them stays closed, whatever its number.
pub proof fn law_which_ports_come_back(bind: BindConfig)
    ensures
        fate_of(bind) == Restore::Listen <==> bind.user is Some && bind.pass is Some && 51300
            <= bind.port && bind.port <= 51399,
        bind.user is None || bind.pass is None ==> fate_of(bind) == Restore::MissingCredentials,
        bind.user is Some && bind.pass is Some && (bind.port < 51300 || bind.port > 51399)
            ==> fate_of(bind) == Restore::PortRange,
{
}

/// A port that is opened is known by its agent, its number, its user name, its password and its
/// limit as they were asked for, with the channels and counters that were made for it.
pub proof fn law_opened_port_is_known(entry: BindEntry, bind: BindConfig, handles: BindHandles)
    requires
        opened(entry, bind, handles),
    ensures
        entry.agent_id@ == bind.agent_id@,
        entry.port == bind.port,
        entry.max_conns == bind.max_conns,
        entry.user is Some <==> bind.user is Some,
        entry.user is Some ==> entry.user->0@ == bind.user->0@,
        entry.pass is Some <==> bind.pass is Some,
        entry.pass is Some ==> entry.pass->0@ == bind.pass->0@,
        entry.usage == handles.usage,
        entry.connection_limit == handles.connection_limit,
        entry.shutdown == Some(handles.shutdown),
{
}

/// The total of a counter is the one that was read of it; a counter that was not read has none.
pub proof fn law_counters_are_found(
    before: Seq<(u64, u64)>,
    handle: u64,
    total: u64,
    behind: Seq<(u64, u64)>,
)
    requires
        forall|i: int| 0 <= i < before.len() ==> (#[trigger] before[i]).0 != handle,
    ensures
        counter_total(before + seq![(handle, total)] + behind, handle) == total,
        counter_total(before, handle) == 0,
    decreases before.len(),
{
    let all = before + seq![(handle, total)] + behind;
    if before.len() > 0 {
        assert(all[0] == before[0]);
        assert(all.skip(1) =~= before.skip(1) + seq![(handle, total)] + behind);
        assert forall|i: int| 0 <= i < before.skip(1).len() implies (#[trigger] before.skip(
            1,
        )[i]).0 != handle by {
            assert(before.skip(1)[i] == before[i + 1]);
        }
        law_counters_are_found(before.skip(1), handle, total, behind);
    } else {
        assert(all[0] == (handle, total));
    }
}

/// Every open port is kept once, with what it was opened with and its traffic.
pub proof fn law_every_port_is_kept(
    list: Seq<BindConfig>,
    binds: Map<u16, BindEntry>,
    counters: Seq<(u64, u64)>,
    port: u16,
)
    requires
        keeps_binds(list, binds, counters),
    ensures
        binds.contains_key(port) <==> exists|i: int|
            0 <= i < list.len() && (#[trigger] list[i]).port == port,
        forall|i: int|
            0 <= i < list.len() && (#[trigger] list[i]).port == port ==> {
                let entry = binds[port];
                &&& list[i].agent_id@ == entry.agent_id@
                &&& list[i].max_conns == entry.max_conns
                &&& list[i].usage == counter_total(counters, entry.usage)
                &&& list[i].user is Some <==> entry.user is Some
                &&& entry.user is Some ==> list[i].user->0@ == entry.user->0@
                &&& list[i].pass is Some <==> entry.pass is Some
                &&& entry.pass is Some ==> list[i].pass->0@ == entry.pass->0@
            },
{
    if binds.contains_key(port) {
        let i = choose|i: int| 0 <= i < list.len() && list[i].port == port;
        assert(list[i].port == port);
    }
}

proof fn lemma_totals_with(list: Seq<AgentCache>, name: Seq<char>)
    requires
        forall|i: int, j: int|
            0 <= i < j < list.len() ==> (#[trigger] list[i]).agent_id@ != (#[trigger] list[j]).agent_id@,
    ensures
        ({
            let totals = totals_with(Map::<Seq<char>, u64>::empty(), list);
            &&& totals.contains_key(name) <==> exists|i: int|
                0 <= i < list.len() && (#[trigger] list[i]).agent_id@ == name
            &&& forall|i: int|
                0 <= i < list.len() && (#[trigger] list[i]).agent_id@ == name ==> totals[name]
                    == list[i].cumulative_usage
        }),
    decreases list.len(),
{
    if list.len() > 0 {
        let before = list.drop_last();
        assert forall|i: int, j: int| 0 <= i < j < before.len() implies (
        #[trigger] before[i]).agent_id@ != (#[trigger] before[j]).agent_id@ by {
            assert(list[i].agent_id@ != list[j].agent_id@);
        }
        lemma_totals_with(before, name);
        let last = list.len() - 1;
        if exists|i: int| 0 <= i < before.len() && (#[trigger] before[i]).agent_id@ == name {
            let i = choose|i: int| 0 <= i < before.len() && (#[trigger] before[i]).agent_id@ == name;
            assert(list[i].agent_id@ == name);
            assert(list[i].agent_id@ != list[last].agent_id@);
        }
        if exists|i: int| 0 <= i < list.len() && (#[trigger] list[i]).agent_id@ == name {
            let i = choose|i: int| 0 <= i < list.len() && (#[trigger] list[i]).agent_id@ == name;
            if i < last {
                assert(before[i].agent_id@ == name);
            }
        }
        assert forall|i: int| 0 <= i < list.len() && (#[trigger] list[i]).agent_id@ == name implies
            totals_with(Map::<Seq<char>, u64>::empty(), list)[name] == list[i].cumulative_usage by {
            if i < last {
                assert(before[i].agent_id@ == name);
                assert(list[i].agent_id@ != list[last].agent_id@);
            }
        }
        if list[last].agent_id@ == name {
            assert(list[last].agent_id@ == name);
        }
    }
}

proof fn lemma_nothing_precedes_itself(a: Seq<char>)
    ensures
        !text_map::precedes(a, a),
    decreases a.len(),
{
    if a.len() > 0 {
        lemma_nothing_precedes_itself(a.skip(1));
    }
}

/// Totals that were kept and are loaded again are what they were, of every agent.
pub proof fn law_kept_totals_come_back(list: Seq<AgentCache>, totals: Map<Seq<char>, u64>)
    requires
        keeps_usage(list, totals),
    ensures
        totals_with(Map::<Seq<char>, u64>::empty(), list) == totals,
{
    let loaded = totals_with(Map::<Seq<char>, u64>::empty(), list);
    assert forall|i: int, j: int| 0 <= i < j < list.len() implies (#[trigger] list[i]).agent_id@ != (
    #[trigger] list[j]).agent_id@ by {
        assert(text_map::precedes(list[i].agent_id@, list[j].agent_id@));
        lemma_nothing_precedes_itself(list[i].agent_id@);
    }
    assert forall|name: Seq<char>| #[trigger] loaded.contains_key(name) <==> totals.contains_key(
        name,
    ) by {
        lemma_totals_with(list, name);
        if totals.contains_key(name) {
            let i = choose|i: int| 0 <= i < list.len() && list[i].agent_id@ == name;
            assert(list[i].agent_id@ == name);
        }
        if loaded.contains_key(name) {
            let i = choose|i: int| 0 <= i < list.len() && (#[trigger] list[i]).agent_id@ == name;
            assert(totals.contains_pair(list[i].agent_id@, list[i].cumulative_usage));
        }
    }
    assert forall|name: Seq<char>| loaded.contains_key(name) implies #[trigger] loaded[name]
        == totals[name] by {
        lemma_totals_with(list, name);
        let i = choose|i: int| 0 <= i < list.len() && (#[trigger] list[i]).agent_id@ == name;
        assert(totals.contains_pair(list[i].agent_id@, list[i].cumulative_usage));
    }
    assert(loaded =~= totals);
}

} // verus!
