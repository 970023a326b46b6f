//! A port that clients connect to: how many it takes at once, and how long it stays open.
use vstd::prelude::*;

use crate::cache;
use crate::http_proxy::{self, HttpStepView, RequestView};
use crate::registry;
use crate::socks5;
use crate::socks5::client::{self, NextView, Phase};
use crate::socks5::open::{
    agent_failed, link_route_of, open_outcome, AgentFault, ConnectError, OpenEvent, OpenWorld,
    Route,
};
use crate::tunnel::control::{registered, Dialled, Registration};
use crate::tunnel::data::{admission, admit_client, Admission};
use crate::tunnel::{AgentEntry, BindEntry};

verus! {

// ---------------------------------------------------------------------------------------------
// The connection limit
// ---------------------------------------------------------------------------------------------

/// The places that a port has for clients. No more of them are taken than there are.
#[derive(Debug)]
pub struct ConnectionLimit {
    max: usize,
    taken: usize,
}

/// How many places there are, and how many of them are taken.
pub struct Places {
    pub max: nat,
    pub taken: nat,
}

impl Places {
    /// No more places are taken than there are.
    pub open spec fn wf(self) -> bool {
        self.taken <= self.max
    }

    /// Whether a place is free.
    pub open spec fn has_room(self) -> bool {
        self.taken < self.max
    }

    /// The places once a client has come: it takes one where one is free.
    pub open spec fn entered(self) -> Places {
        if self.has_room() {
            Places { taken: self.taken + 1, ..self }
        } else {
            self
        }
    }

    /// The places once a client that had one is gone.
    pub open spec fn left(self) -> Places {
        if self.taken > 0 {
            Places { taken: (self.taken - 1) as nat, ..self }
        } else {
            self
        }
    }
}

impl ConnectionLimit {
    /// The places by their numbers.
    pub closed spec fn view(&self) -> Places {
        Places { max: self.max as nat, taken: self.taken as nat }
    }

    #[verifier::type_invariant]
    spec fn inv(self) -> bool {
        self.taken <= self.max
    }

    /// A port without clients.
    pub fn new(max: usize) -> (res: ConnectionLimit)
        ensures
            res@ == (Places { max: max as nat, taken: 0 }),
    {
        ConnectionLimit { max, taken: 0 }
    }

    /// Takes a place where one is free, and says whether one was.
    pub fn enter(&mut self) -> (res: bool)
        ensures
            res == old(self)@.has_room(),
            final(self)@ == old(self)@.entered(),
    {
        proof {
            use_type_invariant(&*self);
        }
        if self.taken < self.max {
            self.taken += 1;
            true
        } else {
            false
        }
    }

    /// Gives a place back.
    pub fn leave(&mut self)
        ensures
            final(self)@ == old(self)@.left(),
    {
        proof {
            use_type_invariant(&*self);
        }
        if self.taken > 0 {
            self.taken -= 1;
        }
    }

    /// How many places are free.
    pub fn available(&self) -> (res: usize)
        ensures
            self@.wf(),
            res == self@.max - self@.taken,
    {
        proof {
            use_type_invariant(self);
        }
        self.max - self.taken
    }
}

// ---------------------------------------------------------------------------------------------
// The port
// ---------------------------------------------------------------------------------------------

/// What happens at a port.
#[derive(Clone, Copy, Debug, PartialEq, Eq, Structural)]
pub enum ListenerEvent {
    /// It is told whether to close; `None` where nobody is left to tell it.
    Told(Option<bool>),
    /// A client has come.
    Client,
    /// A client could not be taken.
    AcceptFailed,
    /// A client that had a place is gone.
    Gone,
}

/// What is to be done at a port.
#[derive(Clone, Copy, Debug, PartialEq, Eq, Structural)]
pub enum ListenerAction {
    /// Wait for what happens next.
    Wait,
    /// Serve the client with this.
    Serve(Admission),
    /// Wait for a tenth of a second.
    Pause,
    /// Close the port, and send its clients away.
    Close,
}

/// What a port works with: the agents, the open ports, and its places.
pub struct PortWorld {
    pub agents: Map<Seq<char>, AgentEntry>,
    pub binds: Map<u16, BindEntry>,
    pub places: Places,
}

/// Whether an event closes a port.
pub open spec fn closes(event: ListenerEvent) -> bool {
    event == ListenerEvent::Told(Some(true)) || event == ListenerEvent::Told(None)
}

/// What an event at the port of an agent leads to.
pub open spec fn listener_outcome(
    world: PortWorld,
    name: Seq<char>,
    port: u16,
    event: ListenerEvent,
) -> (PortWorld, ListenerAction) {
    if closes(event) {
        (PortWorld { binds: world.binds.remove(port), ..world }, ListenerAction::Close)
    } else {
        match event {
            ListenerEvent::Told(_) => (world, ListenerAction::Wait),
            ListenerEvent::Client => (
                PortWorld { places: world.places.entered(), ..world },
                ListenerAction::Serve(admission(world.agents, name, world.places.has_room())),
            ),
            ListenerEvent::AcceptFailed => (world, ListenerAction::Pause),
            ListenerEvent::Gone => (
                PortWorld { places: world.places.left(), ..world },
                ListenerAction::Wait,
            ),
        }
    }
}

/// Takes an event at the port of an agent: what is to be done.
pub fn run_socks_listener(
    agents: &mut dashmap::DashMap<String, AgentEntry>,
    binds: &mut dashmap::DashMap<u16, BindEntry>,
    limit: &mut ConnectionLimit,
    name: &str,
    port: u16,
    event: ListenerEvent,
) -> (res: ListenerAction)
    ensures
        listener_outcome(
            PortWorld {
                agents: registry::agents(*old(agents)),
                binds: registry::binds(*old(binds)),
                places: old(limit)@,
            },
            name@,
            port,
            event,
        ) == (
            PortWorld {
                agents: registry::agents(*final(agents)),
                binds: registry::binds(*final(binds)),
                places: final(limit)@,
            },
            res,
        ),
{
    match event {
        ListenerEvent::Told(Some(false)) => ListenerAction::Wait,
        ListenerEvent::Told(_) => {
            cache::close_bind(binds, port);
            ListenerAction::Close
        },
        ListenerEvent::Client => {
            let has_room = limit.enter();
            ListenerAction::Serve(admit_client(agents, name, has_room))
        },
        ListenerEvent::AcceptFailed => ListenerAction::Pause,
        ListenerEvent::Gone => {
            limit.leave();
            ListenerAction::Wait
        },
    }
}

// ---------------------------------------------------------------------------------------------
// Laws
// ---------------------------------------------------------------------------------------------

/// What happens while a port is open: something at the port, or something that changes the
/// agents, as when one comes or goes.
pub enum PortEvent {
    At(ListenerEvent),
    Agents(Map<Seq<char>, AgentEntry>),
}

/// What one event makes of a port.
pub open spec fn port_step(
    world: PortWorld,
    name: Seq<char>,
    port: u16,
    event: PortEvent,
) -> PortWorld {
    match event {
        PortEvent::At(event) => listener_outcome(world, name, port, event).0,
        PortEvent::Agents(agents) => PortWorld { agents, ..world },
    }
}

/// What events, one after another, make of a port.
pub open spec fn port_after(
    world: PortWorld,
    name: Seq<char>,
    port: u16,
    events: Seq<PortEvent>,
) -> PortWorld
    decreases events.len(),
{
    if events.len() == 0 {
        world
    } else {
        port_step(port_after(world, name, port, events.drop_last()), name, port, events.last())
    }
}

/// How many clients got a place.
pub open spec fn let_in(
    world: PortWorld,
    name: Seq<char>,
    port: u16,
    events: Seq<PortEvent>,
) -> nat
    decreases events.len(),
{
    if events.len() == 0 {
        0
    } else {
        let before = port_after(world, name, port, events.drop_last());
        let_in(world, name, port, events.drop_last()) + if events.last() == PortEvent::At(
            ListenerEvent::Client,
        ) && before.places.has_room() {
            1nat
        } else {
            0nat
        }
    }
}

/// How many clients that had a place are gone.
pub open spec fn gone(events: Seq<PortEvent>) -> nat
    decreases events.len(),
{
    if events.len() == 0 {
        0
    } else {
        gone(events.drop_last()) + if events.last() == PortEvent::At(ListenerEvent::Gone) {
            1nat
        } else {
            0nat
        }
    }
}

/// Whether nobody goes who did not have a place: at no moment more clients are gone than were let
/// in.
pub open spec fn orderly(
    world: PortWorld,
    name: Seq<char>,
    port: u16,
    events: Seq<PortEvent>,
) -> bool {
    forall|i: int|
        0 <= i <= events.len() ==> gone(#[trigger] events.take(i)) <= world.places.taken + let_in(
            world,
            name,
            port,
            events.take(i),
        )
}

/// Whether an event among others closes the port.
pub open spec fn closed_among(events: Seq<PortEvent>) -> bool {
    exists|i: int| 0 <= i < events.len() && (#[trigger] events[i] matches PortEvent::At(event)
        && closes(event))
}

/// A port stays open whatever happens to its agent: only being told so, or having nobody left who
/// could tell it, closes it, and its entry stays until then.
pub proof fn law_port_outlives_its_agent(
    world: PortWorld,
    name: Seq<char>,
    port: u16,
    events: Seq<PortEvent>,
)
    ensures
        port_after(world, name, port, events).binds == if closed_among(events) {
            world.binds.remove(port)
        } else {
            world.binds
        },
        forall|event: ListenerEvent|
            (#[trigger] listener_outcome(
                port_after(world, name, port, events),
                name,
                port,
                event,
            )).1 is Close <==> closes(event),
    decreases events.len(),
{
    if events.len() > 0 {
        let before = events.drop_last();
        law_port_outlives_its_agent(world, name, port, before);
        let last = events.last();
        assert(events[events.len() - 1] == last);
        assert(closed_among(before) ==> closed_among(events)) by {
            if closed_among(before) {
                let i = choose|i: int| 0 <= i < before.len() && (#[trigger] before[i] matches
                    PortEvent::At(event) && closes(event));
                assert(events[i] == before[i]);
            }
        }
        assert(closed_among(events) ==> closed_among(before) || (last matches PortEvent::At(
            event,
        ) && closes(event))) by {
            if closed_among(events) {
                let i = choose|i: int| 0 <= i < events.len() && (#[trigger] events[i] matches
                    PortEvent::At(event) && closes(event));
                if i < before.len() {
                    assert(before[i] == events[i]);
                }
            }
        }
        assert(world.binds.remove(port).remove(port) =~= world.binds.remove(port));
    }
}

/// While the agent of a port is missing, a client for which there is room is taken, and is told
/// that the agent cannot be used: by reply 4 over SOCKS, and by 503 over HTTP.
pub proof fn law_missing_agent_is_reported(
    world: PortWorld,
    name: Seq<char>,
    port: u16,
    target: Seq<char>,
    waiter: u64,
    start: OpenWorld,
    resetting: bool,
)
    requires
        !world.agents.contains_key(name),
        world.places.has_room(),
        start.phase is Start,
    ensures
        listener_outcome(world, name, port, ListenerEvent::Client).1 == ListenerAction::Serve(
            Admission { limit_reached: false, agent: None },
        ),
        open_outcome(
            start,
            link_route_of(None, true),
            target,
            waiter,
            OpenEvent::Begin { resetting },
        ) == agent_failed(start, AgentFault::Offline),
        client::connect_reply_bytes(false, None) == seq![5u8, 4, 0, 1, 0, 0, 0, 0, 0, 0],
        http_proxy::failure_text(ConnectError::AgentUnavailable(AgentFault::Offline))
            == http_proxy::response_text("503 Service Unavailable"@, ""@),
{
    assert(client::connect_reply_bytes(false, None) =~= seq![5u8, 4, 0, 1, 0, 0, 0, 0, 0, 0]);
}

/// Once the agent of a port is registered, a client for which there is room is served through the
/// agent's connection, however long the agent was missing.
pub proof fn law_returned_agent_serves_again(
    world: PortWorld,
    name: Seq<char>,
    port: u16,
    after: Map<Seq<char>, AgentEntry>,
    dialled: Dialled,
    total: u64,
    random: Option<[u8; 32]>,
    now_ms: u64,
    registration: Registration,
)
    requires
        registered(world.agents, after, name, dialled, total, random, now_ms, registration),
        world.places.has_room(),
    ensures
        listener_outcome(
            port_step(world, name, port, PortEvent::Agents(after)),
            name,
            port,
            ListenerEvent::Client,
        ).1 matches ListenerAction::Serve(served) && !served.limit_reached && (served.agent matches
            Some(agent) && agent.control == dialled.control && agent.protocol_version
            == dialled.protocol_version),
        link_route_of(Some(dialled.protocol_version), true) == (if dialled.protocol_version == 2 {
            Route::Open
        } else {
            Route::Request
        }),
{
}

/// A port never has more clients than places. As long as nobody goes who had no place, as many
/// places are taken as clients were let in and are not gone; once all of them are gone, all places
/// are free again.
pub proof fn law_places_are_counted(
    world: PortWorld,
    name: Seq<char>,
    port: u16,
    events: Seq<PortEvent>,
)
    requires
        world.places.wf(),
    ensures
        port_after(world, name, port, events).places.max == world.places.max,
        port_after(world, name, port, events).places.wf(),
        orderly(world, name, port, events) ==> port_after(world, name, port, events).places.taken
            == world.places.taken + let_in(world, name, port, events) - gone(events),
    decreases events.len(),
{
    if events.len() > 0 {
        let before = events.drop_last();
        law_places_are_counted(world, name, port, before);
        if orderly(world, name, port, events) {
            assert forall|i: int| 0 <= i <= before.len() implies gone(#[trigger] before.take(i))
                <= world.places.taken + let_in(world, name, port, before.take(i)) by {
                assert(before.take(i) =~= events.take(i));
            }
            assert(events.take(events.len() as int) =~= events);
        }
    }
}

/// Where all places of a port are taken, a further client reaches no agent and takes no place, and
/// is told so once it has passed the greeting or is authorized: by reply 2 over SOCKS, and by 429
/// over HTTP.
pub proof fn law_full_port_turns_clients_away(
    world: PortWorld,
    name: Seq<char>,
    port: u16,
    start: usize,
    b: Seq<u8>,
    user: Option<Seq<char>>,
    password: Option<Seq<char>>,
    request: RequestView,
    remainder: Seq<u8>,
)
    requires
        world.places.taken == world.places.max,
    ensures
        listener_outcome(world, name, port, ListenerEvent::Client) == (
            world,
            ListenerAction::Serve(Admission { limit_reached: true, agent: None }),
        ),
        socks5::packet_of(client::behind(b, start as int)) is Done ==> {
            let (phase, write, next, report) = client::client_outcome(
                Phase::Request { start },
                b,
                user,
                password,
                true,
            );
            &&& phase is Over
            &&& write == seq![5u8, 2, 0, 1, 0, 0, 0, 0, 0, 0]
            &&& next == NextView::Close
        },
        http_proxy::request_outcome(request, remainder, true) == HttpStepView::Respond(
            http_proxy::response_text("429 Too Many Requests"@, ""@),
        ),
{
    assert(socks5::reply_bytes(0x02, client::nowhere()) =~= seq![
        5u8,
        2,
        0,
        1,
        0,
        0,
        0,
        0,
        0,
        0,
    ]);
}

/// When a client of a full port is gone, however it ended, the next one is let in.
pub proof fn law_freed_place_is_taken_again(world: PortWorld, name: Seq<char>, port: u16)
    requires
        world.places.taken == world.places.max,
        world.places.max > 0,
    ensures
        ({
            let freed = listener_outcome(world, name, port, ListenerEvent::Gone).0;
            let (filled, action) = listener_outcome(freed, name, port, ListenerEvent::Client);
            &&& filled == world
            &&& action == ListenerAction::Serve(admission(world.agents, name, true))
        }),
{
}

/// A port that is told to close, or that nobody can tell any more, is closed and forgotten; told
/// to stay it stays. No other port is touched.
pub proof fn law_port_is_closed(world: PortWorld, name: Seq<char>, port: u16, other: u16)
    ensures
        ({
            let told = listener_outcome(world, name, port, ListenerEvent::Told(Some(true)));
            let left = listener_outcome(world, name, port, ListenerEvent::Told(None));
            let stays = listener_outcome(world, name, port, ListenerEvent::Told(Some(false)));
            &&& told.1 is Close && left.1 is Close
            &&& !told.0.binds.contains_key(port) && !left.0.binds.contains_key(port)
            &&& stays == (world, ListenerAction::Wait)
            &&& other != port ==> (told.0.binds.contains_key(other) <==> world.binds.contains_key(
                other,
            )) && told.0.binds[other] == world.binds[other]
            &&& told.0.agents == world.agents && told.0.places == world.places
        }),
{
}

/// A client that comes is served while fewer than the limit are there, and takes a place; one that
/// leaves frees one. A client that could not be taken makes the port pause and changes nothing.
pub proof fn law_clients_take_places(world: PortWorld, name: Seq<char>, port: u16)
    ensures
        ({
            let (after, action) = listener_outcome(world, name, port, ListenerEvent::Client);
            let room = world.places.taken < world.places.max;
            &&& action matches ListenerAction::Serve(admission) && admission.limit_reached == !room
            &&& after.places.taken == world.places.taken + if room {
                1int
            } else {
                0int
            }
            &&& after.places.max == world.places.max
            &&& after.binds == world.binds && after.agents == world.agents
        }),
        world.places.taken > 0 ==> listener_outcome(
            world,
            name,
            port,
            ListenerEvent::Gone,
        ).0.places.taken == world.places.taken - 1,
        listener_outcome(world, name, port, ListenerEvent::AcceptFailed) == (
            world,
            ListenerAction::Pause,
        ),
{
}

} // verus!
