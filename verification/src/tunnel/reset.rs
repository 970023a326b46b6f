//! Changing an agent's public address: the request for it, and how it ends.
use vstd::prelude::*;
use vstd::slice::slice_subrange;

use crate::address_text;
use crate::json::{self, Json};
use crate::net::SocketAddr;
use crate::registry;
use crate::session;
use crate::text;
use crate::tunnel::api_reply;
use crate::tunnel::control::{self, clear_waiters, elapsed, Dialled, Registration, ResetAnswer};
use crate::tunnel::gone::{
    flag_lowered, flag_up, is_current, left_of, GoneConnection, GoneConnections,
};
use crate::tunnel::{AgentEntry, ResetWaiter};

verus! {

// ---------------------------------------------------------------------------------------------
// The query
// ---------------------------------------------------------------------------------------------

/// Whether a part of a query is among others.
pub open spec fn has_part(parts: Seq<Seq<char>>, wanted: Seq<char>) -> bool {
    parts.contains(wanted)
}

/// Whether a query asks for a new address.
pub open spec fn asks_reset(query: Seq<char>) -> bool {
    has_part(text::pieces(query, '&'), "reset_ip"@)
}

/// The token in the first part that has one.
pub open spec fn token_part(parts: Seq<Seq<char>>) -> Option<Seq<char>>
    decreases parts.len(),
{
    if parts.len() == 0 {
        None
    } else {
        match text::cut(parts[0], '=') {
            Some((key, value)) => if key == "token"@ {
                Some(value)
            } else {
                token_part(parts.skip(1))
            },
            None => token_part(parts.skip(1)),
        }
    }
}

/// The token in a query.
pub open spec fn query_token(query: Seq<char>) -> Option<Seq<char>> {
    token_part(text::pieces(query, '&'))
}

/// Whether a query asks for a new address.
pub fn is_reset_query(query: &str) -> (res: bool)
    ensures
        res == asks_reset(query@),
{
    let wanted = text::to_chars("reset_ip");
    let chars = text::to_chars(query);
    let parts = text::split(chars.as_slice(), '&');
    let ghost all = text::contents(parts@);
    let n: usize = parts.len();
    let mut i: usize = 0;
    while i < n
        invariant
            i <= n,
            n == parts@.len(),
            wanted@ == "reset_ip"@,
            all == text::contents(parts@),
            all == text::pieces(query@, '&'),
            forall|k: int| 0 <= k < i ==> all[k] != "reset_ip"@,
        decreases n - i,
    {
        assert(all[i as int] == parts@[i as int]@);
        if text::same(parts[i], wanted.as_slice()) {
            return true;
        }
        i += 1;
    }
    false
}

/// The token in a query.
pub fn find_token(query: &str) -> (res: Option<String>)
    ensures
        match res {
            Some(token) => query_token(query@) == Some(token@),
            None => query_token(query@) is None,
        },
{
    let wanted = text::to_chars("token");
    let chars = text::to_chars(query);
    let parts = text::split(chars.as_slice(), '&');
    let ghost all = text::contents(parts@);
    let n: usize = parts.len();
    let mut i: usize = 0;
    assert(all.skip(0) =~= all);
    while i < n
        invariant
            i <= n,
            n == parts@.len(),
            wanted@ == "token"@,
            all == text::contents(parts@),
            all == text::pieces(query@, '&'),
            token_part(all.skip(i as int)) == query_token(query@),
        decreases n - i,
    {
        proof {
            assert(all.skip(i as int)[0] == parts@[i as int]@);
            assert(all.skip(i as int).skip(1) =~= all.skip(i + 1));
        }
        if let Some((key, value)) = text::split_once(parts[i], '=') {
            if text::same(key, wanted.as_slice()) {
                return Some(text::from_chars(value));
            }
        }
        i += 1;
    }
    None
}

/// A path without the slashes before it.
pub open spec fn without_slashes(path: Seq<char>) -> Seq<char>
    decreases path.len(),
{
    if path.len() > 0 && path[0] == '/' {
        without_slashes(path.skip(1))
    } else {
        path
    }
}

/// A path without the slashes before it.
fn trim_slashes(path: &str) -> (res: String)
    ensures
        res@ == without_slashes(path@),
{
    let chars = text::to_chars(path);
    let n: usize = chars.len();
    let mut i: usize = 0;
    assert(path@.skip(0) =~= path@);
    while i < n && chars[i] == '/'
        invariant
            i <= n,
            n == chars@.len(),
            chars@ == path@,
            without_slashes(path@.skip(i as int)) == without_slashes(path@),
        decreases n - i,
    {
        assert(path@.skip(i as int).skip(1) =~= path@.skip(i + 1));
        i += 1;
    }
    let rest = slice_subrange(chars.as_slice(), i, n);
    assert(rest@ =~= path@.skip(i as int));
    text::from_chars(rest)
}

// ---------------------------------------------------------------------------------------------
// The request
// ---------------------------------------------------------------------------------------------

/// Why a request for a new address is refused.
#[derive(Clone, Copy, Debug, PartialEq, Eq, Structural)]
pub enum ResetRefusal {
    /// It has no token, or a wrong one.
    Unauthorized,
    /// There is no such agent.
    NoAgent,
    /// The agent is no Android device.
    NotAndroid,
    /// A request for the agent is under way.
    InProgress,
}

/// What becomes of a request for a new address.
#[derive(Debug)]
pub enum ResetStep {
    Refuse(ResetRefusal),
    /// Send the agent with this channel the command, and wait for it to come back.
    Send { control: u64, name: String, addr: SocketAddr },
}

/// Why a request with a token for an agent is refused, where it is.
pub open spec fn reset_refusal(
    agents: Map<Seq<char>, AgentEntry>,
    name: Seq<char>,
    token: Option<Seq<char>>,
) -> Option<ResetRefusal> {
    if token is None {
        Some(ResetRefusal::Unauthorized)
    } else if !agents.contains_key(name) {
        Some(ResetRefusal::NoAgent)
    } else if token != Some(agents[name].reset_token@) {
        Some(ResetRefusal::Unauthorized)
    } else if agents[name].os_type != 1 {
        Some(ResetRefusal::NotAndroid)
    } else if agents[name].reset_waiter is Some {
        Some(ResetRefusal::InProgress)
    } else {
        None
    }
}

/// Whether an entry is being reset for a request from now on: nobody waits at it for connections
/// any more.
pub open spec fn reset_begun(
    before: AgentEntry,
    after: AgentEntry,
    now_ms: u64,
    response: u64,
) -> bool {
    &&& registry::requests(after.active_requests) == Map::<u32, u64>::empty()
    &&& registry::opens(after.pending_opens) == Map::<[u8; 16], u64>::empty()
    &&& after.resetting
    &&& after.reset_waiter matches Some(waiter) && waiter.old_ip@ == address_text::ip_text(
        before.addr.ip_spec(),
    ) && waiter.started_at == now_ms && waiter.response == response
    &&& after == (AgentEntry {
        active_requests: after.active_requests,
        pending_opens: after.pending_opens,
        reset_waiter: after.reset_waiter,
        resetting: after.resetting,
        ..before
    })
}

/// What becomes of a request for a new address: by the agent that the path names, and the token in
/// the query.
pub open spec fn reset_requested(
    before: Map<Seq<char>, AgentEntry>,
    after: Map<Seq<char>, AgentEntry>,
    path: Seq<char>,
    query: Seq<char>,
    now_ms: u64,
    response: u64,
    step: ResetStep,
) -> bool {
    let name = without_slashes(path);
    match reset_refusal(before, name, query_token(query)) {
        Some(refusal) => step == ResetStep::Refuse(refusal) && after == before,
        None => {
            &&& step matches ResetStep::Send { control, name: to, addr } && control
                == before[name].control && to@ == name && addr == before[name].addr
            &&& after.contains_key(name)
            &&& after == before.insert(name, after[name])
            &&& reset_begun(before[name], after[name], now_ms, response)
        },
    }
}

/// Takes a request for a new address.
pub fn request_reset(
    agents: &mut dashmap::DashMap<String, AgentEntry>,
    path: &str,
    query: &str,
    now_ms: u64,
    response: u64,
) -> (res: ResetStep)
    ensures
        reset_requested(
            registry::agents(*old(agents)),
            registry::agents(*final(agents)),
            path@,
            query@,
            now_ms,
            response,
            res,
        ),
{
    let ghost before = registry::agents(*agents);
    let name = trim_slashes(path);
    let token = match find_token(query) {
        Some(token) => token,
        None => {
            return ResetStep::Refuse(ResetRefusal::Unauthorized);
        },
    };
    let mut entry = match registry::agents_remove(agents, name.as_str()) {
        Some(entry) => entry,
        None => {
            assert(registry::agents(*agents) =~= before);
            return ResetStep::Refuse(ResetRefusal::NoAgent);
        },
    };
    let refusal: Option<ResetRefusal> = if !session::constant_time_eq(
        token.as_str(),
        entry.reset_token.as_str(),
    ) {
        Some(ResetRefusal::Unauthorized)
    } else if entry.os_type != 1 {
        Some(ResetRefusal::NotAndroid)
    } else {
        match &entry.reset_waiter {
            Some(_) => Some(ResetRefusal::InProgress),
            None => None,
        }
    };
    match refusal {
        Some(refusal) => {
            registry::agents_insert(agents, name, entry);
            assert(registry::agents(*agents) =~= before);
            ResetStep::Refuse(refusal)
        },
        None => {
            let control: u64 = entry.control;
            let addr: SocketAddr = entry.addr;
            entry.reset_waiter = Some(
                ResetWaiter { old_ip: addr.ip().to_text(), started_at: now_ms, response },
            );
            entry.resetting = true;
            clear_waiters(&mut entry);
            registry::agents_insert(agents, text::copy_text(name.as_str()), entry);
            proof {
                let after = registry::agents(*agents);
                assert(after =~= before.insert(name@, after[name@]));
            }
            ResetStep::Send { control, name, addr }
        },
    }
}

/// The reply to a request that is refused.
pub open spec fn refusal_text(refusal: ResetRefusal) -> Seq<char> {
    match refusal {
        ResetRefusal::Unauthorized => api_reply::plain_reply(
            "401 Unauthorized"@,
            "{\"error\":\"Unauthorized\"}"@,
        ),
        ResetRefusal::NoAgent => api_reply::plain_reply(
            "404 Not Found"@,
            "{\"error\":\"Agent not found\"}"@,
        ),
        ResetRefusal::NotAndroid => api_reply::plain_reply(
            "400 Bad Request"@,
            "{\"error\":\"Agent is not Android\"}"@,
        ),
        ResetRefusal::InProgress => api_reply::plain_reply(
            "409 Conflict"@,
            "{\"error\":\"Reset in progress\"}"@,
        ),
    }
}

/// The reply to a request that is refused.
pub fn refusal_reply(refusal: ResetRefusal) -> (res: String)
    ensures
        res@ == refusal_text(refusal),
{
    match refusal {
        ResetRefusal::Unauthorized => api_reply::reply(
            "401 Unauthorized",
            "{\"error\":\"Unauthorized\"}",
        ),
        ResetRefusal::NoAgent => api_reply::reply(
            "404 Not Found",
            "{\"error\":\"Agent not found\"}",
        ),
        ResetRefusal::NotAndroid => api_reply::reply(
            "400 Bad Request",
            "{\"error\":\"Agent is not Android\"}",
        ),
        ResetRefusal::InProgress => api_reply::reply(
            "409 Conflict",
            "{\"error\":\"Reset in progress\"}",
        ),
    }
}

// ---------------------------------------------------------------------------------------------
// The end
// ---------------------------------------------------------------------------------------------

/// An entry whose reset was given up.
pub open spec fn given_up(entry: AgentEntry) -> AgentEntry {
    AgentEntry { reset_waiter: None, resetting: false, ..entry }
}

/// What a command that could not be sent does to the agents: the reset of that connection is
/// given up.
pub open spec fn reset_not_sent(agents: Map<Seq<char>, AgentEntry>, name: Seq<char>, control: u64) -> Map<
    Seq<char>,
    AgentEntry,
> {
    if agents.contains_key(name) && agents[name].control == control {
        agents.insert(name, given_up(agents[name]))
    } else {
        agents
    }
}

/// Gives up a reset whose command could not be sent.
pub fn fail_reset(
    agents: &mut dashmap::DashMap<String, AgentEntry>,
    gone: &mut GoneConnections,
    name: &str,
    control: u64,
) -> (res: String)
    ensures
        registry::agents(*final(agents)) == reset_not_sent(
            registry::agents(*old(agents)),
            name@,
            control,
        ),
        final(gone)@ == flag_lowered(old(gone)@, control),
        res@ == api_reply::plain_reply(
            "500 Internal Server Error"@,
            "{\"error\":\"Failed to command agent\"}"@,
        ),
{
    let ghost before = registry::agents(*agents);
    gone.give_up_reset(control);
    match registry::agents_remove(agents, name) {
        Some(mut entry) => {
            if entry.control == control {
                entry.reset_waiter = None;
                entry.resetting = false;
            }
            registry::agents_insert(agents, text::copy_text(name), entry);
            assert(registry::agents(*agents) =~= reset_not_sent(before, name@, control));
        },
        None => {
            assert(registry::agents(*agents) =~= before);
        },
    }
    api_reply::reply("500 Internal Server Error", "{\"error\":\"Failed to command agent\"}")
}

/// What the JSON reply to a reset that worked says.
pub open spec fn rotated(old_ip: Seq<char>, new_ip: Seq<char>, took_ms: u64) -> Json {
    Json::Object(
        Map::<Seq<char>, Json>::empty().insert("status"@, Json::Text("rotated"@)).insert(
            "old_ip"@,
            Json::Text(old_ip),
        ).insert("new_ip"@, Json::Text(new_ip)).insert("took_ms"@, Json::Number(took_ms as int)),
    )
}

/// What is answered once an agent is back.
pub open spec fn answer_json(answer: ResetAnswer) -> Json {
    rotated(answer.old_ip@, answer.new_ip@, answer.took_ms)
}

/// The reply to a reset that worked.
pub fn reset_done(answer: &ResetAnswer) -> (res: String)
    ensures
        res@ == api_reply::sized_reply(json::rendered(answer_json(*answer))),
        res@ == api_reply::sized_reply(
            json::rendered(rotated(answer.old_ip@, answer.new_ip@, answer.took_ms)),
        ),
{
    let mut fields = json::no_fields();
    json::set_field(&mut fields, "status", json::text("rotated"));
    json::set_field(&mut fields, "old_ip", json::text(answer.old_ip.as_str()));
    json::set_field(&mut fields, "new_ip", json::text(answer.new_ip.as_str()));
    json::set_field(&mut fields, "took_ms", json::number(answer.took_ms));
    let body = json::render(&json::object(fields));
    api_reply::reply_sized(body.as_str())
}

/// What a reset that took too long does to the agents: the agent is dropped if it still has the
/// address that it was to change; elsewhere the reset of that connection is given up.
pub open spec fn reset_timed_out(
    agents: Map<Seq<char>, AgentEntry>,
    name: Seq<char>,
    control: u64,
    addr: SocketAddr,
) -> Map<Seq<char>, AgentEntry> {
    if agents.contains_key(name) && agents[name].addr == addr {
        agents.remove(name)
    } else {
        reset_not_sent(agents, name, control)
    }
}

/// The connections that are gone once a reset took too long: its own is not being changed any
/// more, and one that is dropped with the agent is among them.
pub open spec fn gone_timed_out(
    gone: Map<u64, GoneConnection>,
    agents: Map<Seq<char>, AgentEntry>,
    name: Seq<char>,
    control: u64,
    addr: SocketAddr,
) -> Map<u64, GoneConnection> {
    let left = flag_lowered(gone, control);
    let entry = agents[name];
    if agents.contains_key(name) && entry.addr == addr {
        left.insert(
            entry.control,
            GoneConnection {
                resetting: entry.resetting && entry.control != control,
                ..left_of(entry)
            },
        )
    } else {
        left
    }
}

/// Gives up a reset that took too long.
pub fn time_out_reset(
    agents: &mut dashmap::DashMap<String, AgentEntry>,
    gone: &mut GoneConnections,
    name: &str,
    control: u64,
    addr: SocketAddr,
) -> (res: String)
    ensures
        registry::agents(*final(agents)) == reset_timed_out(
            registry::agents(*old(agents)),
            name@,
            control,
            addr,
        ),
        final(gone)@ == gone_timed_out(
            old(gone)@,
            registry::agents(*old(agents)),
            name@,
            control,
            addr,
        ),
        res@ == api_reply::plain_reply(
            "504 Gateway Timeout"@,
            "{\"error\":\"Reset timeout\"}"@,
        ),
{
    let ghost before = registry::agents(*agents);
    gone.give_up_reset(control);
    match registry::agents_remove(agents, name) {
        Some(mut entry) => {
            if entry.addr == addr {
                gone.put(
                    entry.control,
                    GoneConnection {
                        active_requests: entry.active_requests,
                        pending_opens: entry.pending_opens,
                        resetting: entry.resetting && entry.control != control,
                    },
                );
            } else {
                if entry.control == control {
                    entry.reset_waiter = None;
                    entry.resetting = false;
                }
                registry::agents_insert(agents, text::copy_text(name), entry);
                assert(registry::agents(*agents) =~= reset_timed_out(before, name@, control, addr));
            }
        },
        None => {
            assert(registry::agents(*agents) =~= before);
        },
    }
    api_reply::reply("504 Gateway Timeout", "{\"error\":\"Reset timeout\"}")
}

// ---------------------------------------------------------------------------------------------
// Laws
// ---------------------------------------------------------------------------------------------

/// A request for a new address is carried out only for an Android agent whose token it has.
pub proof fn law_reset_needs_the_token(
    agents: Map<Seq<char>, AgentEntry>,
    name: Seq<char>,
    token: Option<Seq<char>>,
)
    ensures
        reset_refusal(agents, name, token) is None ==> agents.contains_key(name) && token == Some(
            agents[name].reset_token@,
        ) && agents[name].os_type == 1,
{
}

/// While one request for a new address is under way, the next is refused.
pub proof fn law_one_reset_at_a_time(
    before: Map<Seq<char>, AgentEntry>,
    after: Map<Seq<char>, AgentEntry>,
    path: Seq<char>,
    query: Seq<char>,
    now_ms: u64,
    response: u64,
    step: ResetStep,
)
    requires
        reset_requested(before, after, path, query, now_ms, response, step),
        step is Send,
    ensures
        reset_refusal(after, without_slashes(path), query_token(query)) == Some(
            ResetRefusal::InProgress,
        ),
{
}

/// An agent that disconnects while its address is changed keeps its entry, and with it the request
/// that waits.
pub proof fn law_reset_survives_the_disconnect(
    before: Map<Seq<char>, AgentEntry>,
    after: Map<Seq<char>, AgentEntry>,
    name: Seq<char>,
    control: u64,
    addr: SocketAddr,
)
    requires
        before.contains_key(name),
        before[name].resetting,
        control::disconnected(before, after, name, control, addr),
    ensures
        after.contains_key(name),
        after[name].reset_waiter == before[name].reset_waiter,
        after[name].reset_token == before[name].reset_token,
        after[name].resetting,
{
}

/// Who was admitted to a connection of an agent before the agent changed its address is told that
/// the agent is resetting also once the agent is back, and whatever becomes of it then. Who is
/// admitted to the new connection is not.
pub proof fn law_replaced_connection_stays_resetting(
    before: Map<Seq<char>, AgentEntry>,
    after: Map<Seq<char>, AgentEntry>,
    later: Map<Seq<char>, AgentEntry>,
    gone: Map<u64, GoneConnection>,
    name: Seq<char>,
    dialled: Dialled,
    total: u64,
    random: Option<[u8; 32]>,
    now_ms: u64,
    registration: Registration,
)
    requires
        before.contains_key(name),
        before[name].control != dialled.control,
        control::registered(
            before,
            after,
            name,
            dialled,
            total,
            random,
            now_ms,
            registration,
        ),
    ensures
        ({
            let left = control::gone_registered(gone, before, name, dialled);
            let replaced = before[name].control;
            &&& flag_up(after, left, name, replaced) == before[name].resetting
            &&& !is_current(later, name, replaced) ==> flag_up(later, left, name, replaced)
                == before[name].resetting
            &&& !flag_up(after, left, name, dialled.control)
        }),
{
}

/// A reset that is given up, because its command was not sent or because it took too long, is over
/// for all who were admitted to its connection.
pub proof fn law_given_up_reset_is_over(
    agents: Map<Seq<char>, AgentEntry>,
    gone: Map<u64, GoneConnection>,
    name: Seq<char>,
    control: u64,
    addr: SocketAddr,
)
    ensures
        !flag_up(
            reset_not_sent(agents, name, control),
            flag_lowered(gone, control),
            name,
            control,
        ),
        !flag_up(
            reset_timed_out(agents, name, control, addr),
            gone_timed_out(gone, agents, name, control, addr),
            name,
            control,
        ),
{
}

/// When the agent comes back, the request that waits for it is answered with the old address, the
/// new one and the time that it took, and the agent can be reset again with the same token.
pub proof fn law_reset_is_answered_on_return(
    asked: AgentEntry,
    before: Map<Seq<char>, AgentEntry>,
    after: Map<Seq<char>, AgentEntry>,
    name: Seq<char>,
    dialled: Dialled,
    total: u64,
    random: Option<[u8; 32]>,
    started_ms: u64,
    now_ms: u64,
    response: u64,
    registration: Registration,
)
    requires
        before.contains_key(name),
        reset_begun(asked, before[name], started_ms, response),
        control::registered(
            before,
            after,
            name,
            dialled,
            total,
            random,
            now_ms,
            registration,
        ),
    ensures
        registration.answer matches Some(answer) && {
            &&& answer.response == response
            &&& answer.old_ip@ == address_text::ip_text(asked.addr.ip_spec())
            &&& answer.new_ip@ == address_text::ip_text(dialled.addr.ip_spec())
            &&& answer.took_ms == elapsed(started_ms, now_ms)
        },
        after[name].reset_token == asked.reset_token,
        after[name].reset_waiter is None,
        !after[name].resetting,
{
}

// ---------------------------------------------------------------------------------------------
// What a request for a new address comes to
// ---------------------------------------------------------------------------------------------

/// The parts of a query are those between its ampersands: it asks for a new address where one of
/// them is `reset_ip`, and its token is the value of the first that is called so.
pub proof fn law_query_parts(part: Seq<char>, rest: Seq<char>, value: Seq<char>)
    requires
        !part.contains('&'),
        !value.contains('&'),
    ensures
        asks_reset(part + seq!['&'] + rest) <==> part == "reset_ip"@ || asks_reset(rest),
        asks_reset(part) <==> part == "reset_ip"@,
        !(text::cut(part, '=') matches Some((key, _)) && key == "token"@) ==> query_token(
            part + seq!['&'] + rest,
        ) == query_token(rest) && query_token(part) is None,
        query_token("token="@ + value + seq!['&'] + rest) == Some(value),
        query_token("token="@ + value) == Some(value),
{
    text::law_parts(part, '&', rest);
    let parts = seq![part] + text::pieces(rest, '&');
    let others = text::pieces(rest, '&');
    assert(parts.skip(1) =~= others);
    assert(seq![part].skip(1) =~= Seq::<Seq<char>>::empty());
    assert(token_part(seq![part].skip(1)) is None);
    assert(seq![part][0] == part);
    if part == "reset_ip"@ {
        assert(parts[0] == "reset_ip"@);
    }
    if others.contains("reset_ip"@) {
        let i = choose|i: int| 0 <= i < others.len() && others[i] == "reset_ip"@;
        assert(parts[i + 1] == "reset_ip"@);
    }
    if parts.contains("reset_ip"@) {
        let i = choose|i: int| 0 <= i < parts.len() && parts[i] == "reset_ip"@;
        if i > 0 {
            assert(others[i - 1] == "reset_ip"@);
        }
    }
    reveal_strlit("token=");
    reveal_strlit("token");
    let key = "token"@;
    let own = "token="@ + value;
    assert("token="@ =~= key + seq!['=']);
    assert(own =~= key + seq!['='] + value);
    assert(!key.contains('=')) by {
        if key.contains('=') {
            let i = choose|i: int| 0 <= i < key.len() && key[i] == '=';
            assert(key[i] == '=');
        }
    }
    text::law_cut(key, '=', value);
    assert(!own.contains('&')) by {
        if own.contains('&') {
            let i = choose|i: int| 0 <= i < own.len() && own[i] == '&';
            if i >= 6 {
                assert(value[i - 6] == '&');
                assert(value.contains('&'));
            }
        }
    }
    text::law_parts(own, '&', rest);
    assert(seq![own][0] == own);
    assert((seq![own] + text::pieces(rest, '&'))[0] == own);
}

/// The link on the dashboard asks for a new address of the agent that it stands for, with the
/// token of that agent.
pub proof fn law_reset_link_is_understood(id: Seq<char>, token: Seq<char>)
    requires
        id.len() > 0 && id[0] != '/',
        !id.contains('?'),
        !token.contains('&'),
    ensures
        ({
            let url = crate::tunnel::dashboard::reset_url(id, token);
            let mark = text::position(url, '?');
            &&& mark < url.len()
            &&& url.take(mark) == seq!['/'] + id
            &&& without_slashes(url.take(mark)) == id
            &&& asks_reset(url.skip(mark + 1))
            &&& query_token(url.skip(mark + 1)) == Some(token)
        }),
{
    reveal_strlit("/");
    reveal_strlit("?reset_ip&token=");
    reveal_strlit("reset_ip");
    reveal_strlit("token=");
    let url = crate::tunnel::dashboard::reset_url(id, token);
    let path = seq!['/'] + id;
    let query = "reset_ip"@ + seq!['&'] + ("token="@ + token);
    assert("?reset_ip&token="@ =~= seq!['?'] + "reset_ip"@ + seq!['&'] + "token="@);
    assert(url =~= path + seq!['?'] + query);
    assert(!path.contains('?')) by {
        if path.contains('?') {
            let i = choose|i: int| 0 <= i < path.len() && path[i] == '?';
            assert(id[i - 1] == '?');
            assert(id.contains('?'));
        }
    }
    text::law_cut(path, '?', query);
    text::lemma_position_bounds(url, '?');
    assert(path.skip(1) =~= id);
    assert(without_slashes(id) == id);
    let part = "reset_ip"@;
    assert(part.len() == 8);
    assert(!part.contains('&')) by {
        if part.contains('&') {
            let i = choose|i: int| 0 <= i < part.len() && part[i] == '&';
            assert(part[i] == '&');
        }
    }
    assert(text::cut(part, '=') is None) by {
        assert(!part.contains('=')) by {
            if part.contains('=') {
                let i = choose|i: int| 0 <= i < part.len() && part[i] == '=';
                assert(part[i] == '=');
            }
        }
        text::law_cut(part, '=', Seq::empty());
    }
    law_query_parts(part, "token="@ + token, token);
}

/// A new address is asked of an agent exactly if the request brings the agent's own token, the
/// agent is an Android device and no other request waits for it; else it is refused, and told
/// why.
pub proof fn law_who_may_reset(
    agents: Map<Seq<char>, AgentEntry>,
    name: Seq<char>,
    token: Option<Seq<char>>,
)
    ensures
        reset_refusal(agents, name, token) is None <==> agents.contains_key(name) && token == Some(
            agents[name].reset_token@,
        ) && agents[name].os_type == 1 && agents[name].reset_waiter is None,
        reset_refusal(agents, name, token) == Some(ResetRefusal::Unauthorized) <==> token is None
            || (agents.contains_key(name) && token != Some(agents[name].reset_token@)),
        reset_refusal(agents, name, token) == Some(ResetRefusal::NoAgent) <==> token is Some
            && !agents.contains_key(name),
        reset_refusal(agents, name, token) == Some(ResetRefusal::InProgress)
            ==> agents[name].reset_waiter is Some,
        reset_refusal(agents, name, token) == Some(ResetRefusal::NotAndroid)
            ==> agents[name].os_type != 1,
{
}

/// Where a request is let through, the command goes to that agent and no other is touched: its
/// waiting connections are dropped, it is resetting, and the request waits for it with the
/// address that it had and the time. A refused request changes nothing.
pub proof fn law_reset_touches_its_agent_alone(
    before: Map<Seq<char>, AgentEntry>,
    after: Map<Seq<char>, AgentEntry>,
    path: Seq<char>,
    query: Seq<char>,
    now_ms: u64,
    response: u64,
    step: ResetStep,
    other: Seq<char>,
)
    requires
        reset_requested(before, after, path, query, now_ms, response, step),
    ensures
        step is Refuse ==> after == before,
        step matches ResetStep::Send { control, name, addr } ==> {
            &&& before.contains_key(name@) && after.contains_key(name@)
            &&& control == before[name@].control
            &&& addr == before[name@].addr
            &&& after[name@].resetting
            &&& registry::requests(after[name@].active_requests) == Map::<u32, u64>::empty()
            &&& registry::opens(after[name@].pending_opens) == Map::<[u8; 16], u64>::empty()
            &&& after[name@].reset_waiter matches Some(waiter) && waiter.response == response
                && waiter.started_at == now_ms && waiter.old_ip@ == address_text::ip_text(
                before[name@].addr.ip_spec(),
            )
            &&& after[name@].control == before[name@].control
            &&& after[name@].addr == before[name@].addr
            &&& after[name@].usage == before[name@].usage
            &&& after[name@].reset_token == before[name@].reset_token
            &&& after[name@].os_type == before[name@].os_type
            &&& other != name@ ==> (after.contains_key(other) <==> before.contains_key(other))
                && after[other] == before[other]
        },
{
}

/// What is answered to a request for a new address holds both addresses and the time it took.
pub proof fn law_rotated_fields(old_ip: Seq<char>, new_ip: Seq<char>, took_ms: u64)
    ensures
        ({
            let shown = rotated(old_ip, new_ip, took_ms);
            &&& json::field(shown, "status"@) == Some(Json::Text("rotated"@))
            &&& json::field(shown, "old_ip"@) == Some(Json::Text(old_ip))
            &&& json::field(shown, "new_ip"@) == Some(Json::Text(new_ip))
            &&& json::field(shown, "took_ms"@) == Some(Json::Number(took_ms as int))
        }),
{
    reveal_strlit("status");
    reveal_strlit("old_ip");
    reveal_strlit("new_ip");
    reveal_strlit("took_ms");
    assert("status"@.len() == 6);
    assert("old_ip"@.len() == 6);
    assert("new_ip"@.len() == 6);
    assert("took_ms"@.len() == 7);
    assert("status"@[0] != "old_ip"@[0]);
    assert("status"@[0] != "new_ip"@[0]);
    assert("old_ip"@[0] != "new_ip"@[0]);
}

/// A request that waited in vain removes the agent where it never left its old address, and else
/// gives the request up for the connection that it was sent to; a command that could not be sent
/// gives it up. No other agent is touched.
pub proof fn law_reset_in_vain(
    agents: Map<Seq<char>, AgentEntry>,
    name: Seq<char>,
    control: u64,
    addr: SocketAddr,
    other: Seq<char>,
)
    requires
        agents.contains_key(name),
    ensures
        ({
            let late = reset_timed_out(agents, name, control, addr);
            let unsent = reset_not_sent(agents, name, control);
            &&& agents[name].addr == addr ==> !late.contains_key(name)
            &&& agents[name].addr != addr ==> late.contains_key(name) && late == unsent
            &&& unsent.contains_key(name)
            &&& agents[name].control == control ==> !unsent[name].resetting
                && unsent[name].reset_waiter is None && unsent[name].addr == agents[name].addr
                && unsent[name].control == control
            &&& agents[name].control != control ==> unsent == agents
            &&& other != name ==> (late.contains_key(other) <==> agents.contains_key(other))
                && late[other] == agents[other] && (unsent.contains_key(other)
                <==> agents.contains_key(other)) && unsent[other] == agents[other]
        }),
{
}

/// What each refused request for a new address is answered.
pub proof fn law_reset_refusals_are_told(refusal: ResetRefusal)
    ensures
        ({
            let told = refusal_text(refusal);
            let json = "\r\nContent-Type: application/json\r\n\r\n"@;
            match refusal {
                ResetRefusal::Unauthorized => told == "HTTP/1.1 "@ + "401 Unauthorized"@ + json
                    + "{\"error\":\"Unauthorized\"}"@,
                ResetRefusal::NoAgent => told == "HTTP/1.1 "@ + "404 Not Found"@ + json
                    + "{\"error\":\"Agent not found\"}"@,
                ResetRefusal::NotAndroid => told == "HTTP/1.1 "@ + "400 Bad Request"@ + json
                    + "{\"error\":\"Agent is not Android\"}"@,
                ResetRefusal::InProgress => told == "HTTP/1.1 "@ + "409 Conflict"@ + json
                    + "{\"error\":\"Reset in progress\"}"@,
            }
        }),
{
}

/// What is answered once an agent is back holds the address that it had, the one that it has and
/// how long that took.
pub proof fn law_answer_fields(answer: ResetAnswer)
    ensures
        json::field(answer_json(answer), "old_ip"@) == Some(Json::Text(answer.old_ip@)),
        json::field(answer_json(answer), "new_ip"@) == Some(Json::Text(answer.new_ip@)),
        json::field(answer_json(answer), "took_ms"@) == Some(Json::Number(answer.took_ms as int)),
{
    law_rotated_fields(answer.old_ip@, answer.new_ip@, answer.took_ms);
}

} // verus!
