//! Data connections: how an agent names what it opened one for, and whose turn it is then. Also
//! what a client of a port gets to work with.
use vstd::prelude::*;
use vstd::slice::{slice_subrange, slice_to_vec};
use vstd::utf8::{decode_utf8, valid_utf8};

use crate::net;
use crate::progress::{missing, Progress};
use crate::registry;
use crate::socks5::open::{
    open_outcome, OpenAction, OpenActionView, OpenEvent, OpenPhase, OpenTarget, OpenWorld,
    MAX_DRAWS,
};
use crate::text;
use crate::tunnel::control::{
    registered, Dialled, Registration, V2_STATUS_BLOCKED, V2_STATUS_OK, V2_STATUS_UNREACHABLE,
};
use crate::tunnel::gone::{
    flag_up, gone_opens, gone_requests, gone_resetting, is_current, GoneConnection, GoneConnections,
};
use crate::tunnel::AgentEntry;

verus! {

// ---------------------------------------------------------------------------------------------
// By request number
// ---------------------------------------------------------------------------------------------

/// What a data connection is for: the agent's name behind its length, and the request's number.
/// Fails where the name is not UTF-8.
pub open spec fn data_hello_of(b: Seq<u8>) -> Progress<(Seq<char>, u32), ()> {
    if b.len() < 1 {
        Progress::More(missing(b, 1))
    } else {
        let n = b[0] as int;
        let name = b.subrange(1, 1 + n);
        if b.len() < 1 + n {
            Progress::More(missing(b, 1 + n))
        } else if b.len() < 5 + n {
            Progress::More(missing(b, 5 + n))
        } else if !valid_utf8(name) {
            Progress::Failed(())
        } else {
            Progress::Done {
                value: (
                    decode_utf8(name),
                    net::from_be32(b[1 + n], b[2 + n], b[3 + n], b[4 + n]),
                ),
                used: (5 + n) as usize,
            }
        }
    }
}

/// The text inside a reading result.
pub open spec fn data_hello_view(p: Progress<(String, u32), ()>) -> Progress<(Seq<char>, u32), ()> {
    match p {
        Progress::More(n) => Progress::More(n),
        Progress::Done { value: (name, id), used } => Progress::Done { value: (name@, id), used },
        Progress::Failed(error) => Progress::Failed(error),
    }
}

/// What a data connection is for.
pub fn read_data_hello(b: &[u8]) -> (res: Progress<(String, u32), ()>)
    ensures
        data_hello_view(res) == data_hello_of(b@),
{
    let len: usize = b.len();
    if len < 1 {
        return Progress::More(1);
    }
    let n: usize = b[0] as usize;
    if len < 1 + n {
        return Progress::More(1 + n - len);
    }
    if len < 5 + n {
        return Progress::More(5 + n - len);
    }
    match text::string_from_utf8(slice_to_vec(slice_subrange(b, 1, 1 + n))) {
        Ok(name) => Progress::Done {
            value: (name, net::join_be32(b[1 + n], b[2 + n], b[3 + n], b[4 + n])),
            used: 5 + n,
        },
        Err(_) => Progress::Failed(()),
    }
}

/// Whom a data connection is for.
#[derive(Clone, Copy, Debug, PartialEq, Eq, Structural)]
pub enum Claim {
    /// The waiter with this handle.
    Waiter(u64),
    /// Nobody waits for this request any more.
    UnknownRequest,
    /// There is no such agent.
    UnknownAgent,
}

/// Whom a data connection for a request is for. Who gets it waits no longer.
pub open spec fn request_claimed(
    before: Map<Seq<char>, AgentEntry>,
    after: Map<Seq<char>, AgentEntry>,
    name: Seq<char>,
    id: u32,
    claim: Claim,
) -> bool {
    if !before.contains_key(name) {
        claim == Claim::UnknownAgent && after == before
    } else {
        let waiting = registry::requests(before[name].active_requests);
        &&& after.contains_key(name)
        &&& after == before.insert(name, after[name])
        &&& after[name] == (AgentEntry {
            active_requests: after[name].active_requests,
            ..before[name]
        })
        &&& registry::requests(after[name].active_requests) == waiting.remove(id)
        &&& claim == match waiting.get(id) {
            Some(waiter) => Claim::Waiter(waiter),
            None => Claim::UnknownRequest,
        }
    }
}

/// Whom a data connection for a request is for.
pub fn claim_request(
    agents: &mut dashmap::DashMap<String, AgentEntry>,
    name: &str,
    id: u32,
) -> (res: Claim)
    ensures
        request_claimed(
            registry::agents(*old(agents)),
            registry::agents(*final(agents)),
            name@,
            id,
            res,
        ),
{
    let ghost before = registry::agents(*agents);
    match registry::agents_remove(agents, name) {
        Some(mut entry) => {
            let claim = match registry::requests_remove(&mut entry.active_requests, id) {
                Some(waiter) => Claim::Waiter(waiter),
                None => Claim::UnknownRequest,
            };
            registry::agents_insert(agents, text::copy_text(name), entry);
            proof {
                let after = registry::agents(*agents);
                assert(after =~= before.insert(name@, after[name@]));
            }
            claim
        },
        None => {
            assert(registry::agents(*agents) =~= before);
            Claim::UnknownAgent
        },
    }
}

// ---------------------------------------------------------------------------------------------
// By token
// ---------------------------------------------------------------------------------------------

/// The token that sixteen bytes are.
pub open spec fn token_at(b: Seq<u8>) -> [u8; 16] {
    [
        b[0],
        b[1],
        b[2],
        b[3],
        b[4],
        b[5],
        b[6],
        b[7],
        b[8],
        b[9],
        b[10],
        b[11],
        b[12],
        b[13],
        b[14],
        b[15],
    ]
}

/// Sixteen bytes that are those of a token are that token.
pub proof fn lemma_token_at(b: Seq<u8>, token: [u8; 16])
    requires
        b.len() >= 16,
        b.take(16) == token@,
    ensures
        token_at(b) == token,
{
    let t = token_at(b);
    assert forall|i: int| 0 <= i < 16 implies t@[i] == token@[i] by {
        assert(token@[i] == b.take(16)[i]);
    }
    assert(t@ =~= token@);
    assert(t =~= token);
}

/// What a data connection is for: a token, and how the agent fared with the target.
pub open spec fn token_hello_of(b: Seq<u8>) -> Progress<([u8; 16], u8), ()> {
    if b.len() < 16 {
        Progress::More(missing(b, 16))
    } else if b.len() < 17 {
        Progress::More(missing(b, 17))
    } else {
        Progress::Done { value: (token_at(b), b[16]), used: 17 }
    }
}

/// The token that sixteen bytes are.
pub fn take_token(b: &[u8]) -> (res: [u8; 16])
    requires
        b@.len() >= 16,
    ensures
        res == token_at(b@),
{
    [
        b[0],
        b[1],
        b[2],
        b[3],
        b[4],
        b[5],
        b[6],
        b[7],
        b[8],
        b[9],
        b[10],
        b[11],
        b[12],
        b[13],
        b[14],
        b[15],
    ]
}

/// What a data connection is for.
pub fn read_token_hello(b: &[u8]) -> (res: Progress<([u8; 16], u8), ()>)
    ensures
        res == token_hello_of(b@),
{
    let len: usize = b.len();
    if len < 16 {
        Progress::More(16 - len)
    } else if len < 17 {
        Progress::More(17 - len)
    } else {
        Progress::Done { value: (take_token(b), b[16]), used: 17 }
    }
}

/// Whether somebody waits at an agent for this token.
pub open spec fn awaits(entry: AgentEntry, token: [u8; 16]) -> bool {
    registry::opens(entry.pending_opens).contains_key(token)
}

/// Whether a data connection with a token was given to one who waited for it at the agent of this
/// name, and waits no longer.
pub open spec fn claimed_at(
    before: Map<Seq<char>, AgentEntry>,
    after: Map<Seq<char>, AgentEntry>,
    name: Seq<char>,
    token: [u8; 16],
    waiter: u64,
) -> bool {
    &&& before.contains_key(name)
    &&& awaits(before[name], token)
    &&& registry::opens(before[name].pending_opens)[token] == waiter
    &&& after.contains_key(name)
    &&& after == before.insert(name, after[name])
    &&& after[name] == (AgentEntry { pending_opens: after[name].pending_opens, ..before[name] })
    &&& registry::opens(after[name].pending_opens) == registry::opens(
        before[name].pending_opens,
    ).remove(token)
}

/// Whom a data connection with a token is for: one who waits for it at some agent.
pub open spec fn token_claimed(
    before: Map<Seq<char>, AgentEntry>,
    after: Map<Seq<char>, AgentEntry>,
    token: [u8; 16],
    res: Option<u64>,
) -> bool {
    match res {
        Some(waiter) => exists|name: Seq<char>| #[trigger]
            claimed_at(before, after, name, token, waiter),
        None => {
            &&& after == before
            &&& forall|name: Seq<char>| #[trigger]
                before.contains_key(name) ==> !awaits(before[name], token)
        },
    }
}

/// Whom a data connection with a token is for.
pub fn claim_token(
    agents: &mut dashmap::DashMap<String, AgentEntry>,
    token: &[u8; 16],
) -> (res: Option<u64>)
    ensures
        token_claimed(registry::agents(*old(agents)), registry::agents(*final(agents)), *token, res),
{
    let ghost before = registry::agents(*agents);
    let names = registry::agents_keys(agents);
    let n: usize = names.len();
    let mut i: usize = 0;
    while i < n
        invariant
            i <= n,
            n == names@.len(),
            registry::agents(*agents) == before,
            before == registry::agents(*old(agents)),
            forall|k: int| 0 <= k < names@.len() ==> before.contains_key((#[trigger] names@[k])@),
            forall|k: int| 0 <= k < i ==> !awaits(before[(#[trigger] names@[k])@], *token),
        decreases n - i,
    {
        let ghost name = names@[i as int]@;
        if let Some(mut entry) = registry::agents_remove(agents, names[i].as_str()) {
            if registry::opens_contain(&entry.pending_opens, token) {
                let found = registry::opens_remove(&mut entry.pending_opens, token);
                registry::agents_insert(agents, text::copy_text(names[i].as_str()), entry);
                proof {
                    let after = registry::agents(*agents);
                    assert(after =~= before.insert(name, after[name]));
                    assert(claimed_at(before, after, name, *token, found->0));
                }
                return found;
            }
            registry::agents_insert(agents, text::copy_text(names[i].as_str()), entry);
            assert(registry::agents(*agents) =~= before);
        }
        i += 1;
    }
    proof {
        assert forall|name: Seq<char>| #[trigger] before.contains_key(name) implies !awaits(
            before[name],
            *token,
        ) by {
            let k = choose|k: int| 0 <= k < names@.len() && names@[k]@ == name;
            assert(!awaits(before[names@[k]@], *token));
        }
    }
    None
}

/// How the agent fared, by the status that it sent.
pub open spec fn result_of(status: u8) -> Result<(), u8> {
    match status {
        0 => Ok(()),
        2 => Err(2),
        _ => Err(4),
    }
}

/// How the agent fared, by the status that it sent: it is connected, or it reports one of two
/// faults; any other status is taken for the target being out of reach.
pub fn open_result(status: u8) -> (res: Result<(), u8>)
    ensures
        res == result_of(status),
        res == (if status == V2_STATUS_OK {
            Ok::<(), u8>(())
        } else if status == V2_STATUS_BLOCKED {
            Err::<(), u8>(V2_STATUS_BLOCKED)
        } else {
            Err::<(), u8>(V2_STATUS_UNREACHABLE)
        }),
{
    if status == V2_STATUS_OK {
        Ok(())
    } else if status == V2_STATUS_BLOCKED || status == V2_STATUS_UNREACHABLE {
        Err(status)
    } else {
        Err(V2_STATUS_UNREACHABLE)
    }
}

// ---------------------------------------------------------------------------------------------
// Clients of a port
// ---------------------------------------------------------------------------------------------

/// What a client is served with.
#[derive(Clone, Copy, Debug, PartialEq, Eq, Structural)]
pub struct AgentRef {
    /// The handle of the channel to the agent's control connection.
    pub control: u64,
    pub protocol_version: u8,
    /// The handle of the agent's traffic counter.
    pub usage: u64,
}

/// What a client of a port gets to work with.
#[derive(Clone, Copy, Debug, PartialEq, Eq, Structural)]
pub struct Admission {
    /// Whether the port has no room for it.
    pub limit_reached: bool,
    /// The agent that serves it, where it is connected.
    pub agent: Option<AgentRef>,
}

/// What a client of a port gets to work with: nothing where there is no room for it, and the
/// port's agent elsewhere, if that is connected.
pub open spec fn admission(
    agents: Map<Seq<char>, AgentEntry>,
    name: Seq<char>,
    has_room: bool,
) -> Admission {
    Admission {
        limit_reached: !has_room,
        agent: if has_room && agents.contains_key(name) {
            let entry = agents[name];
            Some(
                AgentRef {
                    control: entry.control,
                    protocol_version: entry.protocol_version,
                    usage: entry.usage,
                },
            )
        } else {
            None
        },
    }
}

/// What a client of a port gets to work with.
pub fn admit_client(
    agents: &mut dashmap::DashMap<String, AgentEntry>,
    name: &str,
    has_room: bool,
) -> (res: Admission)
    ensures
        res == admission(registry::agents(*old(agents)), name@, has_room),
        registry::agents(*final(agents)) == registry::agents(*old(agents)),
{
    if !has_room {
        return Admission { limit_reached: true, agent: None };
    }
    let ghost before = registry::agents(*agents);
    match registry::agents_remove(agents, name) {
        Some(entry) => {
            let agent = AgentRef {
                control: entry.control,
                protocol_version: entry.protocol_version,
                usage: entry.usage,
            };
            registry::agents_insert(agents, text::copy_text(name), entry);
            assert(registry::agents(*agents) =~= before);
            Admission { limit_reached: false, agent: Some(agent) }
        },
        None => {
            assert(registry::agents(*agents) =~= before);
            Admission { limit_reached: false, agent: None }
        },
    }
}

/// A port follows its agent: once an agent is back, the clients of its ports are served through
/// its new connection, and those of other agents as before.
pub proof fn law_ports_follow_their_agent(
    before: Map<Seq<char>, AgentEntry>,
    after: Map<Seq<char>, AgentEntry>,
    name: Seq<char>,
    other: Seq<char>,
    dialled: Dialled,
    total: u64,
    random: Option<[u8; 32]>,
    now_ms: u64,
    registration: Registration,
)
    requires
        registered(before, after, name, dialled, total, random, now_ms, registration),
        other != name,
    ensures
        admission(after, name, true).agent matches Some(agent) && agent.control == dialled.control
            && agent.protocol_version == dialled.protocol_version,
        admission(after, other, true) == admission(before, other, true),
{
}

/// Whether a connection of an agent is changing its address, as those see it who were admitted to
/// it.
pub fn is_resetting(
    agents: &mut dashmap::DashMap<String, AgentEntry>,
    gone: &mut GoneConnections,
    name: &str,
    control: u64,
) -> (res: bool)
    ensures
        registry::agents(*final(agents)) == registry::agents(*old(agents)),
        final(gone)@ == old(gone)@,
        res == flag_up(registry::agents(*old(agents)), old(gone)@, name@, control),
{
    let ghost before = registry::agents(*agents);
    match registry::agents_remove(agents, name) {
        Some(entry) => {
            let current = entry.control == control;
            let resetting = entry.resetting;
            registry::agents_insert(agents, text::copy_text(name), entry);
            assert(registry::agents(*agents) =~= before);
            if current {
                return resetting;
            }
        },
        None => {
            assert(registry::agents(*agents) =~= before);
        },
    }
    gone.was_resetting(control)
}

// ---------------------------------------------------------------------------------------------
// Opening a target through an agent
// ---------------------------------------------------------------------------------------------

/// What an event does to an attempt to open a target through a connection of an agent. Who waits
/// at a connection with which the agent is not registered any more waits there.
pub open spec fn open_advanced(
    before: Map<Seq<char>, AgentEntry>,
    after: Map<Seq<char>, AgentEntry>,
    gone: Map<u64, GoneConnection>,
    gone_after: Map<u64, GoneConnection>,
    name: Seq<char>,
    control: u64,
    attempt: OpenTarget,
    attempt_after: OpenTarget,
    event: OpenEvent,
    action: OpenActionView,
) -> bool {
    if is_current(before, name, control) {
        &&& gone_after == gone
        &&& after.contains_key(name)
        &&& after == before.insert(name, after[name])
        &&& after[name] == (AgentEntry {
            active_requests: after[name].active_requests,
            pending_opens: after[name].pending_opens,
            ..before[name]
        })
        &&& open_outcome(
            attempt.world(before[name].active_requests, before[name].pending_opens),
            attempt.route,
            attempt.target@,
            attempt.waiter,
            event,
        ) == (
            attempt_after.world(after[name].active_requests, after[name].pending_opens),
            action,
        )
    } else {
        &&& after == before
        &&& gone_after.contains_key(control)
        &&& gone_after == gone.insert(control, gone_after[control])
        &&& gone_after[control].resetting == gone_resetting(gone, control)
        &&& open_outcome(
            OpenWorld {
                phase: attempt.phase,
                requests: gone_requests(gone, control),
                opens: gone_opens(gone, control),
            },
            attempt.route,
            attempt.target@,
            attempt.waiter,
            event,
        ) == (
            attempt_after.world(
                gone_after[control].active_requests,
                gone_after[control].pending_opens,
            ),
            action,
        )
    }
}

/// Takes an event of an attempt to open a target through a connection of an agent: what is to be
/// done next.
pub fn advance_open(
    agents: &mut dashmap::DashMap<String, AgentEntry>,
    gone: &mut GoneConnections,
    name: &str,
    control: u64,
    attempt: &mut OpenTarget,
    event: OpenEvent,
) -> (res: OpenAction)
    requires
        old(attempt).phase matches OpenPhase::Drawing { tries } ==> tries < MAX_DRAWS,
    ensures
        final(attempt).phase matches OpenPhase::Drawing { tries } ==> tries < MAX_DRAWS,
        final(attempt).target == old(attempt).target,
        final(attempt).route == old(attempt).route,
        final(attempt).waiter == old(attempt).waiter,
        open_advanced(
            registry::agents(*old(agents)),
            registry::agents(*final(agents)),
            old(gone)@,
            final(gone)@,
            name@,
            control,
            *old(attempt),
            *final(attempt),
            event,
            res@,
        ),
{
    let ghost before = registry::agents(*agents);
    if let Some(mut entry) = registry::agents_remove(agents, name) {
        if entry.control == control {
            let res = attempt.open_target(
                event,
                &mut entry.active_requests,
                &mut entry.pending_opens,
            );
            registry::agents_insert(agents, text::copy_text(name), entry);
            proof {
                let after = registry::agents(*agents);
                assert(after =~= before.insert(name@, after[name@]));
            }
            return res;
        }
        registry::agents_insert(agents, text::copy_text(name), entry);
    }
    assert(registry::agents(*agents) =~= before);
    let mut connection = match gone.take(control) {
        Some(connection) => connection,
        None => GoneConnection {
            active_requests: registry::requests_new(),
            pending_opens: registry::opens_new(),
            resetting: false,
        },
    };
    let res = attempt.open_target(
        event,
        &mut connection.active_requests,
        &mut connection.pending_opens,
    );
    gone.put(control, connection);
    assert(gone@ =~= old(gone)@.insert(control, gone@[control]));
    res
}

/// The data connection that an agent opens for a request reaches the client that the request was
/// made for, and no second one does.
pub proof fn law_data_connection_reaches_its_client(
    before: Map<Seq<char>, AgentEntry>,
    asked: Map<Seq<char>, AgentEntry>,
    after: Map<Seq<char>, AgentEntry>,
    gone: Map<u64, GoneConnection>,
    gone_after: Map<u64, GoneConnection>,
    name: Seq<char>,
    control: u64,
    attempt: OpenTarget,
    attempt_after: OpenTarget,
    event: OpenEvent,
    id: u32,
    claim: Claim,
)
    requires
        before.contains_key(name) && before[name].control == control,
        open_advanced(
            before,
            asked,
            gone,
            gone_after,
            name,
            control,
            attempt,
            attempt_after,
            event,
            OpenActionView::SendRequest(id),
        ),
        request_claimed(asked, after, name, id, claim),
    ensures
        claim == Claim::Waiter(attempt.waiter),
        !registry::requests(after[name].active_requests).contains_key(id),
{
}

/// The data connection that an agent opens under a token reaches the client that the token was
/// drawn for, where no other agent has drawn the same token.
pub proof fn law_token_reaches_its_client(
    before: Map<Seq<char>, AgentEntry>,
    asked: Map<Seq<char>, AgentEntry>,
    after: Map<Seq<char>, AgentEntry>,
    gone: Map<u64, GoneConnection>,
    gone_after: Map<u64, GoneConnection>,
    name: Seq<char>,
    control: u64,
    attempt: OpenTarget,
    attempt_after: OpenTarget,
    event: OpenEvent,
    token: [u8; 16],
    target: Seq<u8>,
    claim: Option<u64>,
)
    requires
        before.contains_key(name) && before[name].control == control,
        open_advanced(
            before,
            asked,
            gone,
            gone_after,
            name,
            control,
            attempt,
            attempt_after,
            event,
            OpenActionView::SendOpen(token, target),
        ),
        forall|other: Seq<char>| #[trigger]
            asked.contains_key(other) && other != name ==> !awaits(asked[other], token),
        token_claimed(asked, after, token, claim),
    ensures
        claim == Some(attempt.waiter),
        !awaits(after[name], token),
{
    assert(awaits(asked[name], token));
    if let Some(waiter) = claim {
        let found = choose|found: Seq<char>| #[trigger]
            claimed_at(asked, after, found, token, waiter);
        assert(asked.contains_key(found));
    }
}

// ---------------------------------------------------------------------------------------------
// Whose turn it is
// ---------------------------------------------------------------------------------------------

/// A data connection for a request is handed to the one who waits for that request of that agent,
/// who then waits no more; nobody else's waiting and no other agent is touched.
pub proof fn law_request_is_claimed_once(
    before: Map<Seq<char>, AgentEntry>,
    after: Map<Seq<char>, AgentEntry>,
    name: Seq<char>,
    id: u32,
    claim: Claim,
    other: Seq<char>,
    other_id: u32,
)
    requires
        request_claimed(before, after, name, id, claim),
    ensures
        !before.contains_key(name) ==> claim == Claim::UnknownAgent && after == before,
        before.contains_key(name) ==> {
            let waiting = registry::requests(before[name].active_requests);
            let left = registry::requests(after[name].active_requests);
            &&& waiting.contains_key(id) ==> claim == Claim::Waiter(waiting[id])
            &&& !waiting.contains_key(id) ==> claim == Claim::UnknownRequest
            &&& !left.contains_key(id)
            &&& other_id != id ==> (left.contains_key(other_id) <==> waiting.contains_key(
                other_id,
            )) && left[other_id] == waiting[other_id]
            &&& registry::opens(after[name].pending_opens) == registry::opens(
                before[name].pending_opens,
            )
        },
        other != name ==> (after.contains_key(other) <==> before.contains_key(other))
            && after[other] == before[other],
{
}

/// A data connection under a token is handed to somebody who waits for that token, who then waits
/// no more; where nobody does, nothing happens.
pub proof fn law_token_is_claimed_once(
    before: Map<Seq<char>, AgentEntry>,
    after: Map<Seq<char>, AgentEntry>,
    token: [u8; 16],
    res: Option<u64>,
)
    requires
        token_claimed(before, after, token, res),
    ensures
        res is None <==> forall|name: Seq<char>| #[trigger]
            before.contains_key(name) ==> !registry::opens(before[name].pending_opens).contains_key(
                token,
            ),
        res is None ==> after == before,
        res matches Some(waiter) ==> exists|name: Seq<char>| #[trigger]
            before.contains_key(name) && registry::opens(before[name].pending_opens).contains_pair(
                token,
                waiter,
            ) && after.contains_key(name) && !registry::opens(
                after[name].pending_opens,
            ).contains_key(token) && forall|other: Seq<char>|
                other != name ==> (#[trigger] after.contains_key(other) <==> before.contains_key(
                    other,
                )) && after[other] == before[other],
{
    match res {
        Some(waiter) => {
            let name = choose|name: Seq<char>| #[trigger]
                claimed_at(before, after, name, token, waiter);
            assert(before.contains_key(name) && awaits(before[name], token));
        },
        None => {
            assert forall|name: Seq<char>| #[trigger] before.contains_key(name) implies !registry::opens(
                before[name].pending_opens,
            ).contains_key(token) by {
                assert(!awaits(before[name], token));
            }
        },
    }
}

/// A client that finds room is served by the agent of its port, where it is connected, with that
/// agent's channel, version and counter; one that finds none is not served.
pub proof fn law_admitted_clients(agents: Map<Seq<char>, AgentEntry>, name: Seq<char>)
    ensures
        admission(agents, name, false).limit_reached && admission(agents, name, false).agent
            is None,
        !admission(agents, name, true).limit_reached,
        admission(agents, name, true).agent is Some <==> agents.contains_key(name),
        admission(agents, name, true).agent matches Some(agent) ==> agent.control
            == agents[name].control && agent.protocol_version == agents[name].protocol_version
            && agent.usage == agents[name].usage,
{
}

/// An agent that reports 0 is connected; 2 is a target that it may not reach, and everything else
/// one that it cannot.
pub proof fn law_reported_status(status: u8)
    ensures
        result_of(status) is Ok <==> status == 0,
        result_of(status) == Err::<(), u8>(2) <==> status == 2,
        status != 0 && status != 2 ==> result_of(status) == Err::<(), u8>(4),
{
}

/// What an agent says first on a data connection is read as it is: its name behind its length and
/// the request's number, or the token and a status. Of a part of it no more is asked for than
/// belongs to it.
pub proof fn law_data_hello(
    name: Seq<char>,
    b0: u8,
    b1: u8,
    b2: u8,
    b3: u8,
    token: [u8; 16],
    status: u8,
    rest: Seq<u8>,
    k: int,
)
    requires
        vstd::utf8::encode_utf8(name).len() <= 255,
        0 <= k,
    ensures
        ({
            let x = vstd::utf8::encode_utf8(name);
            let b = seq![x.len() as u8] + x + seq![b0, b1, b2, b3];
            &&& data_hello_of(b + rest) == (Progress::<(Seq<char>, u32), ()>::Done {
                value: (
                    name,
                    (b0 * 0x100_0000 + b1 * 0x1_0000 + b2 * 0x100 + b3) as u32,
                ),
                used: b.len() as usize,
            })
            &&& k < b.len() ==> (data_hello_of(b.take(k)) matches Progress::More(n) && 1 <= n && k
                + n <= b.len())
        }),
        token_hello_of(token@ + seq![status] + rest) == (Progress::<([u8; 16], u8), ()>::Done {
            value: (token, status),
            used: 17,
        }),
        k < 17 ==> (token_hello_of((token@ + seq![status]).take(k)) matches Progress::More(n) && 1
            <= n && k + n <= 17),
{
    let x = vstd::utf8::encode_utf8(name);
    let n = x.len() as int;
    vstd::utf8::encode_utf8_valid_utf8(name);
    vstd::utf8::encode_utf8_decode_utf8(name);
    let b = seq![n as u8] + x + seq![b0, b1, b2, b3];
    let c = b + rest;
    assert(c[0] == n);
    assert(c.subrange(1, 1 + n) =~= x);
    assert(c[1 + n] == b0 && c[2 + n] == b1 && c[3 + n] == b2 && c[4 + n] == b3);
    if 1 <= k < b.len() {
        assert(b.take(k)[0] == n);
    }
    let t = token@ + seq![status] + rest;
    assert(t[16] == status);
    assert(t.take(16) =~= token@);
    lemma_token_at(t, token);
}

/// An attempt to open a connection works on those who wait for its own connection: at the agent
/// while that connection is its current one, and else at what was left of it. Nobody who waits for
/// another connection and no other agent is touched.
pub proof fn law_attempts_stay_with_their_connection(
    before: Map<Seq<char>, AgentEntry>,
    after: Map<Seq<char>, AgentEntry>,
    gone: Map<u64, GoneConnection>,
    gone_after: Map<u64, GoneConnection>,
    name: Seq<char>,
    control: u64,
    attempt: OpenTarget,
    attempt_after: OpenTarget,
    event: OpenEvent,
    action: OpenActionView,
    other: Seq<char>,
    other_control: u64,
)
    requires
        open_advanced(
            before,
            after,
            gone,
            gone_after,
            name,
            control,
            attempt,
            attempt_after,
            event,
            action,
        ),
    ensures
        before.contains_key(name) && before[name].control == control ==> gone_after == gone
            && after[name].addr == before[name].addr && after[name].resetting
            == before[name].resetting && after[name].control == control,
        !(before.contains_key(name) && before[name].control == control) ==> after == before && (
        other_control != control ==> (gone_after.contains_key(other_control)
            <==> gone.contains_key(other_control)) && gone_after[other_control]
            == gone[other_control]),
        other != name ==> (after.contains_key(other) <==> before.contains_key(other))
            && after[other] == before[other],
        attempt.phase is AwaitingOpen && event is Connected ==> action is Ready
            && attempt_after.phase is Over,
{
}

} // verus!
