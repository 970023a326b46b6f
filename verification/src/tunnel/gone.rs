//! Connections of agents that are no longer registered. Who was admitted to such a connection still
//! works with it.
use std::collections::HashMap;

use vstd::prelude::*;

use crate::registry;
use crate::tunnel::AgentEntry;

verus! {

/// What is left of a connection.
#[derive(Debug)]
pub struct GoneConnection {
    /// Requests that wait for a data connection, each with the handle of its waiter.
    pub active_requests: dashmap::DashMap<u32, u64>,
    /// Tokens that wait for a data connection, each with the handle of its waiter.
    pub pending_opens: dashmap::DashMap<[u8; 16], u64>,
    /// Whether its address was being changed.
    pub resetting: bool,
}

/// What is left of connections, by their handles. At one of which nothing is kept nobody waits, and
/// its address was not being changed.
#[derive(Debug)]
pub struct GoneConnections {
    connections: HashMap<u64, GoneConnection>,
}

impl GoneConnections {
    /// What is left of which connections.
    pub closed spec fn view(&self) -> Map<u64, GoneConnection> {
        self.connections@
    }

    /// No connections.
    pub fn new() -> (res: GoneConnections)
        ensures
            res@ == Map::<u64, GoneConnection>::empty(),
    {
        GoneConnections { connections: HashMap::new() }
    }

    /// Keeps what is left of a connection.
    pub fn put(&mut self, control: u64, connection: GoneConnection)
        ensures
            final(self)@ == old(self)@.insert(control, connection),
    {
        broadcast use vstd::std_specs::hash::group_hash_axioms;

        self.connections.insert(control, connection);
    }

    /// Takes out what is left of a connection.
    pub fn take(&mut self, control: u64) -> (res: Option<GoneConnection>)
        ensures
            res == old(self)@.get(control),
            final(self)@ == old(self)@.remove(control),
    {
        broadcast use vstd::std_specs::hash::group_hash_axioms;

        let res = self.connections.remove(&control);
        assert(self@ =~= old(self)@.remove(control));
        res
    }

    /// Forgets a connection, as when nobody is left who was admitted to it.
    pub fn forget(&mut self, control: u64)
        ensures
            final(self)@ == old(self)@.remove(control),
    {
        let _ = self.take(control);
    }

    /// Notes that the address of a connection is not being changed any more.
    pub fn give_up_reset(&mut self, control: u64)
        ensures
            final(self)@ == flag_lowered(old(self)@, control),
    {
        if let Some(mut connection) = self.take(control) {
            connection.resetting = false;
            self.put(control, connection);
        }
        assert(self@ =~= flag_lowered(old(self)@, control));
    }

    /// Whether the address of a connection was being changed when it went.
    pub fn was_resetting(&mut self, control: u64) -> (res: bool)
        ensures
            res == gone_resetting(old(self)@, control),
            final(self)@ == old(self)@,
    {
        match self.take(control) {
            Some(connection) => {
                let res = connection.resetting;
                self.put(control, connection);
                assert(self@ =~= old(self)@);
                res
            },
            None => {
                assert(self@ =~= old(self)@);
                false
            },
        }
    }
}

/// Connections of which one is not being changed any more.
pub open spec fn flag_lowered(gone: Map<u64, GoneConnection>, control: u64) -> Map<
    u64,
    GoneConnection,
> {
    if gone.contains_key(control) {
        gone.insert(control, GoneConnection { resetting: false, ..gone[control] })
    } else {
        gone
    }
}

/// What is left of a connection whose agent is not registered with it any more.
pub open spec fn left_of(entry: AgentEntry) -> GoneConnection {
    GoneConnection {
        active_requests: entry.active_requests,
        pending_opens: entry.pending_opens,
        resetting: entry.resetting,
    }
}

/// Whether the address of a connection was being changed when it went.
pub open spec fn gone_resetting(gone: Map<u64, GoneConnection>, control: u64) -> bool {
    gone.contains_key(control) && gone[control].resetting
}

/// Which requests wait at a connection that is gone.
pub open spec fn gone_requests(gone: Map<u64, GoneConnection>, control: u64) -> Map<u32, u64> {
    if gone.contains_key(control) {
        registry::requests(gone[control].active_requests)
    } else {
        Map::empty()
    }
}

/// Which tokens wait at a connection that is gone.
pub open spec fn gone_opens(gone: Map<u64, GoneConnection>, control: u64) -> Map<[u8; 16], u64> {
    if gone.contains_key(control) {
        registry::opens(gone[control].pending_opens)
    } else {
        Map::empty()
    }
}

/// Whether an agent is registered with a connection.
pub open spec fn is_current(
    agents: Map<Seq<char>, AgentEntry>,
    name: Seq<char>,
    control: u64,
) -> bool {
    agents.contains_key(name) && agents[name].control == control
}

/// Whether a connection of an agent is changing its address, as those see it who were admitted to
/// it: for good where it went while that was so.
pub open spec fn flag_up(
    agents: Map<Seq<char>, AgentEntry>,
    gone: Map<u64, GoneConnection>,
    name: Seq<char>,
    control: u64,
) -> bool {
    if is_current(agents, name, control) {
        agents[name].resetting
    } else {
        gone_resetting(gone, control)
    }
}

/// Whether the address of a connection is being changed is known of the agent while the connection
/// is its current one, and afterwards of what was left of it; where nothing was left it is not.
pub proof fn law_flag_is_the_connections(
    agents: Map<Seq<char>, AgentEntry>,
    gone: Map<u64, GoneConnection>,
    name: Seq<char>,
    control: u64,
    other: u64,
)
    ensures
        agents.contains_key(name) && agents[name].control == control ==> flag_up(
            agents,
            gone,
            name,
            control,
        ) == agents[name].resetting,
        !(agents.contains_key(name) && agents[name].control == control) && gone.contains_key(
            control,
        ) ==> flag_up(agents, gone, name, control) == gone[control].resetting,
        !(agents.contains_key(name) && agents[name].control == control) && !gone.contains_key(
            control,
        ) ==> !flag_up(agents, gone, name, control),
        ({
            let after = flag_lowered(gone, control);
            &&& after.contains_key(other) <==> gone.contains_key(other)
            &&& gone.contains_key(control) ==> !after[control].resetting
                && after[control].active_requests == gone[control].active_requests
                && after[control].pending_opens == gone[control].pending_opens
            &&& other != control ==> after[other] == gone[other]
        }),
{
}

} // verus!
