//! The dashboard: who may ask for what, and what is answered.
use vstd::prelude::*;
use vstd::utf8::encode_utf8;

use crate::address_text;
use crate::cache::BindConfig;
use crate::json::{self, Json};
use crate::net::{IpAddr, SocketAddr};
use crate::registry;
use crate::security::{self, SecurityManager, SecurityView};
use crate::session::{self, SessionStore};
use crate::socks5::client::{as_option_str, string_option};
use crate::text;
use crate::text_map;
use crate::tunnel::api_reply;
use crate::tunnel::api_request::{self, ApiRequest, ApiRequestView};
use crate::tunnel::dashboard::{self, AgentRow, BindRow};
use crate::tunnel::qr::{self, Pairing};
use crate::tunnel::reset::{self, ResetStep};
use crate::tunnel::{
    is_socks_port, AgentEntry, BindEntry, DEFAULT_MAX_CONNS, MAX_CONNS, SOCKS_PORT_MAX,
    SOCKS_PORT_MIN,
};

verus! {

// ---------------------------------------------------------------------------------------------
// Who asks
// ---------------------------------------------------------------------------------------------

/// Whether a request comes from the operator: it has the password, or the cookie of a session
/// that has not ended.
pub open spec fn authed(
    sessions: Map<Seq<char>, u64>,
    password: Seq<char>,
    cookie: Seq<char>,
    admin_password: Seq<char>,
    now: u64,
) -> bool {
    password == admin_password || match session::cookie_token(cookie) {
        Some(token) => session::valid(sessions, token, now),
        None => false,
    }
}

/// The sessions after a request was checked: where the password does not decide, the session of
/// the cookie is looked up.
pub open spec fn asked(
    sessions: Map<Seq<char>, u64>,
    password: Seq<char>,
    cookie: Seq<char>,
    admin_password: Seq<char>,
    now: u64,
) -> Map<Seq<char>, u64> {
    if password == admin_password {
        sessions
    } else {
        match session::cookie_token(cookie) {
            Some(token) => session::checked(sessions, token, now),
            None => sessions,
        }
    }
}

/// Whether a request comes from the operator.
pub fn authenticate(
    sessions: &mut SessionStore,
    password: &str,
    cookie: &str,
    admin_password: &str,
    now: u64,
) -> (res: bool)
    requires
        old(sessions).wf(),
    ensures
        final(sessions).wf(),
        res == authed(old(sessions).contents(), password@, cookie@, admin_password@, now),
        final(sessions).contents() == asked(
            old(sessions).contents(),
            password@,
            cookie@,
            admin_password@,
            now,
        ),
{
    let token = session::token_from_cookie_header(cookie);
    if session::constant_time_eq(password, admin_password) {
        return true;
    }
    match token {
        Some(token) => session::is_valid(sessions, token.as_str(), now),
        None => false,
    }
}

// ---------------------------------------------------------------------------------------------
// What is asked
// ---------------------------------------------------------------------------------------------

/// What a request asks for.
#[derive(Clone, Copy, Debug, PartialEq, Eq, Structural)]
pub enum ApiRoute {
    /// The dashboard's page.
    Index,
    Login,
    Logout,
    /// Something that only the operator may have.
    Denied,
    /// The code that a phone scans.
    Qr,
    /// The code, for somebody else than the operator.
    QrDenied,
    /// A new address for an agent.
    Reset,
    /// The agents and the open ports.
    State,
    Bind,
    Unbind,
    /// The banned addresses.
    Bans,
    AddBan,
    RemoveBan,
    NotFound,
}

/// Whether a path is one that only the operator may ask for, but for logging in and out.
pub open spec fn is_api_path(path: Seq<char>) -> bool {
    "/api/"@.is_prefix_of(path)
}

/// What a request asks for.
pub open spec fn route_of(
    method: Seq<char>,
    path: Seq<char>,
    query: Seq<char>,
    authed: bool,
) -> ApiRoute {
    if path == "/"@ || path == "/index.html"@ {
        ApiRoute::Index
    } else if method == "POST"@ && path == "/api/login"@ {
        ApiRoute::Login
    } else if method == "POST"@ && path == "/api/logout"@ {
        ApiRoute::Logout
    } else if is_api_path(path) && !authed {
        ApiRoute::Denied
    } else if path == "/qr"@ {
        if authed {
            ApiRoute::Qr
        } else {
            ApiRoute::QrDenied
        }
    } else if reset::asks_reset(query) {
        ApiRoute::Reset
    } else if path == "/api/state"@ {
        ApiRoute::State
    } else if method == "POST"@ && path == "/api/bind"@ {
        ApiRoute::Bind
    } else if method == "POST"@ && path == "/api/unbind"@ {
        ApiRoute::Unbind
    } else if path == "/api/blacklist"@ && method == "GET"@ {
        ApiRoute::Bans
    } else if path == "/api/blacklist"@ && method == "POST"@ {
        ApiRoute::AddBan
    } else if path == "/api/blacklist"@ && method == "DELETE"@ {
        ApiRoute::RemoveBan
    } else {
        ApiRoute::NotFound
    }
}

/// Whether a path is one that only the operator may ask for, but for logging in and out.
fn has_api_path(path: &str) -> (res: bool)
    ensures
        res == is_api_path(path@),
{
    let chars = text::to_chars(path);
    let prefix = text::to_chars("/api/");
    text::starts_with(chars.as_slice(), prefix.as_slice())
}

/// What a request asks for.
pub fn route(method: &str, path: &str, query: &str, authed: bool) -> (res: ApiRoute)
    ensures
        res == route_of(method@, path@, query@, authed),
{
    let posted = text::same_text(method, "POST");
    if text::same_text(path, "/") || text::same_text(path, "/index.html") {
        ApiRoute::Index
    } else if posted && text::same_text(path, "/api/login") {
        ApiRoute::Login
    } else if posted && text::same_text(path, "/api/logout") {
        ApiRoute::Logout
    } else if has_api_path(path) && !authed {
        ApiRoute::Denied
    } else if text::same_text(path, "/qr") {
        if authed {
            ApiRoute::Qr
        } else {
            ApiRoute::QrDenied
        }
    } else if reset::is_reset_query(query) {
        ApiRoute::Reset
    } else if text::same_text(path, "/api/state") {
        ApiRoute::State
    } else if posted && text::same_text(path, "/api/bind") {
        ApiRoute::Bind
    } else if posted && text::same_text(path, "/api/unbind") {
        ApiRoute::Unbind
    } else if text::same_text(path, "/api/blacklist") {
        if text::same_text(method, "GET") {
            ApiRoute::Bans
        } else if posted {
            ApiRoute::AddBan
        } else if text::same_text(method, "DELETE") {
            ApiRoute::RemoveBan
        } else {
            ApiRoute::NotFound
        }
    } else {
        ApiRoute::NotFound
    }
}

/// What is known of bans once it is clear what a request of an address asks for: one that only
/// the operator may make counts for or against the address. Logging in counts by itself.
pub open spec fn judged(
    known: SecurityView,
    route: ApiRoute,
    path: Seq<char>,
    ip: Seq<char>,
    now: u64,
) -> SecurityView {
    match route {
        ApiRoute::Index => known,
        ApiRoute::Login => known,
        ApiRoute::Logout => known,
        ApiRoute::Denied => security::failed(known, ip, now),
        ApiRoute::QrDenied => security::failed(known, ip, now),
        ApiRoute::Qr => security::succeeded(known, ip),
        _ => if is_api_path(path) {
            security::succeeded(known, ip)
        } else {
            known
        },
    }
}

/// Counts a request for or against the address that it comes from.
fn judge(sm: &mut SecurityManager, route: ApiRoute, path: &str, ip: &str, now: u64)
    requires
        old(sm).wf(),
        now + security::BAN_TTL_SECS <= u64::MAX,
    ensures
        final(sm).wf(),
        final(sm)@ == judged(old(sm)@, route, path@, ip@, now),
{
    match route {
        ApiRoute::Index => {},
        ApiRoute::Login => {},
        ApiRoute::Logout => {},
        ApiRoute::Denied => security::report_failure(sm, ip, now),
        ApiRoute::QrDenied => security::report_failure(sm, ip, now),
        ApiRoute::Qr => security::report_success(sm, ip),
        _ => {
            if has_api_path(path) {
                security::report_success(sm, ip);
            }
        },
    }
}

// ---------------------------------------------------------------------------------------------
// Logging in and out
// ---------------------------------------------------------------------------------------------

/// The text in a field of a JSON text.
pub open spec fn text_field(value: Option<Json>, key: Seq<char>) -> Option<Seq<char>> {
    match value {
        Some(value) => match json::field(value, key) {
            Some(found) => json::text_of(found),
            None => None,
        },
        None => None,
    }
}

/// The number in a field of a JSON text.
pub open spec fn number_field(value: Option<Json>, key: Seq<char>) -> Option<u64> {
    match value {
        Some(value) => match json::field(value, key) {
            Some(found) => json::number_of(found),
            None => None,
        },
        None => None,
    }
}

/// The text in a field of a value.
fn read_text(value: &serde_json::Value, key: &str) -> (res: Option<String>)
    ensures
        string_option(res) == text_field(Some(json::model(*value)), key@),
{
    match json::get(value, key) {
        Some(found) => json::as_text(&found),
        None => None,
    }
}

/// The number in a field of a value.
fn read_number(value: &serde_json::Value, key: &str) -> (res: Option<u64>)
    ensures
        res == number_field(Some(json::model(*value)), key@),
{
    match json::get(value, key) {
        Some(found) => json::as_number(&found),
        None => None,
    }
}

/// The text in a field of a JSON text.
pub fn read_text_field(body: &str, key: &str) -> (res: Option<String>)
    ensures
        string_option(res) == text_field(json::parsed(body@), key@),
{
    match json::parse(body) {
        Some(value) => read_text(&value, key),
        None => None,
    }
}

/// The number in a field of a JSON text.
pub fn read_number_field(body: &str, key: &str) -> (res: Option<u64>)
    ensures
        res == number_field(json::parsed(body@), key@),
{
    match json::parse(body) {
        Some(value) => read_number(&value, key),
        None => None,
    }
}

/// The times at which a request came: Unix seconds, and nanoseconds and milliseconds of the
/// monotonic clock.
#[derive(Clone, Copy, Debug, PartialEq, Eq, Structural)]
pub struct ApiClock {
    pub unix_secs: u64,
    pub nanos: u64,
    pub millis: u64,
}

impl ApiClock {
    /// Whether bans and sessions that begin now end at times that can be told.
    pub open spec fn ok(self) -> bool {
        &&& self.unix_secs + security::BAN_TTL_SECS <= u64::MAX
        &&& self.nanos + session::TTL <= u64::MAX
    }
}

/// What is known of bans after somebody logged in with a password.
pub open spec fn login_judged(
    known: SecurityView,
    password: Option<Seq<char>>,
    admin_password: Seq<char>,
    ip: Seq<char>,
    now: u64,
) -> SecurityView {
    match password {
        Some(password) => if password == admin_password {
            security::succeeded(known, ip)
        } else {
            security::failed(known, ip, now)
        },
        None => known,
    }
}

/// What logging in with a password does to the sessions, and what is answered. The right password
/// opens a session, if there is a random token for it.
pub open spec fn logged_in(
    before: Map<Seq<char>, u64>,
    after: Map<Seq<char>, u64>,
    password: Option<Seq<char>>,
    admin_password: Seq<char>,
    random: Option<[u8; 32]>,
    https: bool,
    now: u64,
    reply: Seq<char>,
) -> bool {
    if password is None {
        &&& reply == api_reply::closing_reply("400 Bad Request"@, "{\"error\":\"Bad request\"}"@)
        &&& after == before
    } else if password != Some(admin_password) {
        &&& reply == api_reply::closing_reply("401 Unauthorized"@, "{\"error\":\"Unauthorized\"}"@)
        &&& after == before
    } else {
        match random {
            Some(bytes) => {
                let token = text::hex_text(bytes@);
                &&& reply == api_reply::cookie_reply(session::set_cookie_text(token, https))
                &&& session::added(before, after, token, (now + session::TTL) as u64, now)
            },
            None => {
                &&& reply == api_reply::closing_reply(
                    "500 Internal Server Error"@,
                    "{\"error\":\"Internal error\"}"@,
                )
                &&& after == before
            },
        }
    }
}

/// Logs somebody in who sent a password.
pub fn login(
    sm: &mut SecurityManager,
    sessions: &mut SessionStore,
    password: Option<String>,
    admin_password: &str,
    random: Option<[u8; 32]>,
    ip: &str,
    https: bool,
    clock: ApiClock,
) -> (res: String)
    requires
        old(sm).wf(),
        old(sessions).wf(),
        clock.ok(),
    ensures
        final(sm).wf(),
        final(sessions).wf(),
        final(sm)@ == login_judged(
            old(sm)@,
            string_option(password),
            admin_password@,
            ip@,
            clock.unix_secs,
        ),
        logged_in(
            old(sessions).contents(),
            final(sessions).contents(),
            string_option(password),
            admin_password@,
            random,
            https,
            clock.nanos,
            res@,
        ),
{
    let password = match password {
        Some(password) => password,
        None => {
            return api_reply::reply_and_close("400 Bad Request", "{\"error\":\"Bad request\"}");
        },
    };
    if !session::constant_time_eq(password.as_str(), admin_password) {
        security::report_failure(sm, ip, clock.unix_secs);
        return api_reply::reply_and_close("401 Unauthorized", "{\"error\":\"Unauthorized\"}");
    }
    security::report_success(sm, ip);
    match session::create(sessions, random, clock.nanos) {
        Some(token) => {
            let cookie = session::set_cookie_header(token.as_str(), https);
            api_reply::reply_with_cookie(cookie.as_str())
        },
        None => api_reply::reply_and_close(
            "500 Internal Server Error",
            "{\"error\":\"Internal error\"}",
        ),
    }
}

/// The sessions after somebody with a cookie logged out.
pub open spec fn logged_out(sessions: Map<Seq<char>, u64>, cookie: Seq<char>) -> Map<
    Seq<char>,
    u64,
> {
    match session::cookie_token(cookie) {
        Some(token) => sessions.remove(token),
        None => sessions,
    }
}

/// Logs somebody with a cookie out.
pub fn logout(sessions: &mut SessionStore, cookie: &str, https: bool) -> (res: String)
    requires
        old(sessions).wf(),
    ensures
        final(sessions).wf(),
        final(sessions).contents() == logged_out(old(sessions).contents(), cookie@),
        res@ == api_reply::cookie_reply(session::clear_cookie_text(https)),
{
    if let Some(token) = session::token_from_cookie_header(cookie) {
        session::revoke(sessions, token.as_str());
    }
    api_reply::reply_with_cookie(session::clear_cookie_header(https).as_str())
}

// ---------------------------------------------------------------------------------------------
// Opening and closing ports
// ---------------------------------------------------------------------------------------------

/// What a request to open a port says.
#[derive(Debug)]
pub struct BindRequest {
    /// Whether it says how many connections the port takes.
    pub limited: bool,
    /// The number of them, where it is one.
    pub max_conns: Option<u64>,
    pub agent_id: Option<String>,
    pub port: Option<u64>,
    pub user: Option<String>,
    pub pass: Option<String>,
}

/// What a request to open a port says, by contents.
pub struct BindRequestView {
    pub limited: bool,
    pub max_conns: Option<u64>,
    pub agent_id: Option<Seq<char>>,
    pub port: Option<u64>,
    pub user: Option<Seq<char>>,
    pub pass: Option<Seq<char>>,
}

impl View for BindRequest {
    type V = BindRequestView;

    open spec fn view(&self) -> BindRequestView {
        BindRequestView {
            limited: self.limited,
            max_conns: self.max_conns,
            agent_id: string_option(self.agent_id),
            port: self.port,
            user: string_option(self.user),
            pass: string_option(self.pass),
        }
    }
}

/// What a JSON value says as a request to open a port.
pub open spec fn bind_request(value: Json) -> BindRequestView {
    BindRequestView {
        limited: json::field(value, "max_conns"@) is Some,
        max_conns: number_field(Some(value), "max_conns"@),
        agent_id: text_field(Some(value), "agent_id"@),
        port: number_field(Some(value), "port"@),
        user: text_field(Some(value), "user"@),
        pass: text_field(Some(value), "pass"@),
    }
}

/// A request, by contents.
pub open spec fn request_view(request: Option<BindRequest>) -> Option<BindRequestView> {
    match request {
        Some(request) => Some(request@),
        None => None,
    }
}

/// What a JSON text says as a request to open a port.
pub open spec fn bind_request_in(value: Option<Json>) -> Option<BindRequestView> {
    match value {
        Some(value) => Some(bind_request(value)),
        None => None,
    }
}

/// What a JSON text says as a request to open a port.
pub fn read_bind_request(body: &str) -> (res: Option<BindRequest>)
    ensures
        request_view(res) == bind_request_in(json::parsed(body@)),
{
    match json::parse(body) {
        Some(value) => {
            let limited = match json::get(&value, "max_conns") {
                Some(_) => true,
                None => false,
            };
            Some(
                BindRequest {
                    limited,
                    max_conns: read_number(&value, "max_conns"),
                    agent_id: read_text(&value, "agent_id"),
                    port: read_number(&value, "port"),
                    user: read_text(&value, "user"),
                    pass: read_text(&value, "pass"),
                },
            )
        },
        None => None,
    }
}

/// Why a port is not opened.
#[derive(Clone, Copy, Debug, PartialEq, Eq, Structural)]
pub enum BindRefusal {
    /// The request is no JSON, or names no agent or no port.
    Invalid,
    /// It allows no possible number of connections.
    MaxConns,
    /// It has no user name or no password.
    Credentials,
    /// The port is none that a proxy may listen on.
    PortRange,
    /// The agent is not connected.
    NoAgent,
    /// The port is open.
    Bound,
}

/// Whether a text is there and not empty.
pub open spec fn given(value: Option<Seq<char>>) -> bool {
    value matches Some(text) && text.len() > 0
}

/// Why a port is not opened on a request, where it is not.
pub open spec fn bind_refusal(
    request: Option<BindRequestView>,
    agents: Map<Seq<char>, AgentEntry>,
    binds: Map<u16, BindEntry>,
) -> Option<BindRefusal> {
    match request {
        None => Some(BindRefusal::Invalid),
        Some(request) => if request.limited && !(request.max_conns matches Some(n) && 1 <= n
            <= MAX_CONNS) {
            Some(BindRefusal::MaxConns)
        } else {
            match (request.agent_id, request.port) {
                (Some(agent_id), Some(port)) => if port > u16::MAX {
                    Some(BindRefusal::Invalid)
                } else if !given(request.user) || !given(request.pass) {
                    Some(BindRefusal::Credentials)
                } else if !(SOCKS_PORT_MIN <= port <= SOCKS_PORT_MAX) {
                    Some(BindRefusal::PortRange)
                } else if !agents.contains_key(agent_id) {
                    Some(BindRefusal::NoAgent)
                } else if binds.contains_key(port as u16) {
                    Some(BindRefusal::Bound)
                } else {
                    None
                },
                _ => Some(BindRefusal::Invalid),
            }
        },
    }
}

/// Whether settings are those that a request asks for.
pub open spec fn config_of(request: BindRequestView, config: BindConfig) -> bool {
    &&& request.agent_id == Some(config.agent_id@)
    &&& request.port == Some(config.port as u64)
    &&& string_option(config.user) == request.user
    &&& string_option(config.pass) == request.pass
    &&& config.usage == 0
    &&& config.max_conns == if request.limited {
        request.max_conns->Some_0 as usize
    } else {
        DEFAULT_MAX_CONNS
    }
}

/// Whether a port is opened on a request, and how.
pub fn decide_bind(
    request: Option<BindRequest>,
    agents: &dashmap::DashMap<String, AgentEntry>,
    binds: &dashmap::DashMap<u16, BindEntry>,
) -> (res: Result<BindConfig, BindRefusal>)
    ensures
        match res {
            Ok(config) => {
                &&& bind_refusal(
                    request_view(request),
                    registry::agents(*agents),
                    registry::binds(*binds),
                ) is None
                &&& config_of(request_view(request)->Some_0, config)
            },
            Err(refusal) => bind_refusal(
                request_view(request),
                registry::agents(*agents),
                registry::binds(*binds),
            ) == Some(refusal),
        },
{
    let request = match request {
        Some(request) => request,
        None => {
            return Err(BindRefusal::Invalid);
        },
    };
    let max_conns: usize = if request.limited {
        match request.max_conns {
            Some(n) => {
                if n < 1 || n > MAX_CONNS as u64 {
                    return Err(BindRefusal::MaxConns);
                }
                n as usize
            },
            None => {
                return Err(BindRefusal::MaxConns);
            },
        }
    } else {
        DEFAULT_MAX_CONNS
    };
    let agent_id = match request.agent_id {
        Some(agent_id) => agent_id,
        None => {
            return Err(BindRefusal::Invalid);
        },
    };
    let port: u64 = match request.port {
        Some(port) => port,
        None => {
            return Err(BindRefusal::Invalid);
        },
    };
    if port > 65535 {
        return Err(BindRefusal::Invalid);
    }
    let user = match request.user {
        Some(user) => user,
        None => {
            return Err(BindRefusal::Credentials);
        },
    };
    let pass = match request.pass {
        Some(pass) => pass,
        None => {
            return Err(BindRefusal::Credentials);
        },
    };
    if user.as_str().unicode_len() == 0 || pass.as_str().unicode_len() == 0 {
        return Err(BindRefusal::Credentials);
    }
    let port: u16 = port as u16;
    if !is_socks_port(port) {
        return Err(BindRefusal::PortRange);
    }
    if !registry::agents_contain(agents, agent_id.as_str()) {
        return Err(BindRefusal::NoAgent);
    }
    if registry::binds_contain(binds, port) {
        return Err(BindRefusal::Bound);
    }
    Ok(BindConfig { port, agent_id, user: Some(user), pass: Some(pass), usage: 0, max_conns })
}

/// The reply to a request for a port that is not opened.
pub open spec fn bind_refusal_text(refusal: BindRefusal) -> Seq<char> {
    match refusal {
        BindRefusal::Invalid => api_reply::plain_reply(
            "400 Bad Request"@,
            "{\"error\":\"Invalid JSON\"}"@,
        ),
        BindRefusal::MaxConns => api_reply::plain_reply(
            "400 Bad Request"@,
            "{\"error\":\"Invalid max_conns\"}"@,
        ),
        BindRefusal::Credentials => api_reply::plain_reply(
            "400 Bad Request"@,
            "{\"error\":\"Missing credentials\"}"@,
        ),
        BindRefusal::PortRange => api_reply::plain_reply(
            "422 Unprocessable Content"@,
            "{\"error\":\"Port must be between "@ + text::decimal(SOCKS_PORT_MIN as nat) + " and "@
                + text::decimal(SOCKS_PORT_MAX as nat) + "\"}"@,
        ),
        BindRefusal::NoAgent => api_reply::plain_reply(
            "404 Not Found"@,
            "{\"error\":\"Agent not found\"}"@,
        ),
        BindRefusal::Bound => api_reply::plain_reply(
            "409 Conflict"@,
            "{\"error\":\"Port already bound\"}"@,
        ),
    }
}

/// The reply to a request for a port that is not opened.
pub fn bind_refusal_reply(refusal: BindRefusal) -> (res: String)
    ensures
        res@ == bind_refusal_text(refusal),
{
    match refusal {
        BindRefusal::Invalid => api_reply::reply("400 Bad Request", "{\"error\":\"Invalid JSON\"}"),
        BindRefusal::MaxConns => api_reply::reply(
            "400 Bad Request",
            "{\"error\":\"Invalid max_conns\"}",
        ),
        BindRefusal::Credentials => api_reply::reply(
            "400 Bad Request",
            "{\"error\":\"Missing credentials\"}",
        ),
        BindRefusal::PortRange => {
            let mut body: String = text::copy_text("{\"error\":\"Port must be between ");
            text::push_decimal(&mut body, SOCKS_PORT_MIN as u128);
            body = text::join(body.as_str(), " and ");
            text::push_decimal(&mut body, SOCKS_PORT_MAX as u128);
            body = text::join(body.as_str(), "\"}");
            api_reply::reply("422 Unprocessable Content", body.as_str())
        },
        BindRefusal::NoAgent => api_reply::reply(
            "404 Not Found",
            "{\"error\":\"Agent not found\"}",
        ),
        BindRefusal::Bound => api_reply::reply(
            "409 Conflict",
            "{\"error\":\"Port already bound\"}",
        ),
    }
}

/// The reply where a port could not be listened on.
pub fn port_unavailable(error: &str) -> (res: String)
    ensures
        res@ == api_reply::plain_reply(
            "409 Conflict"@,
            "{\"error\":\"Port unavailable: "@ + error@ + "\"}"@,
        ),
{
    let body = text::join(text::join("{\"error\":\"Port unavailable: ", error).as_str(), "\"}");
    api_reply::reply("409 Conflict", body.as_str())
}

/// The reply where a port was opened.
pub fn bound_reply() -> (res: String)
    ensures
        res@ == api_reply::plain_reply("200 OK"@, "{\"status\":\"bound\"}"@),
{
    api_reply::reply("200 OK", "{\"status\":\"bound\"}")
}

/// The open ports after one was told to close: its channel is used up.
pub open spec fn told_to_close(binds: Map<u16, BindEntry>, port: u16) -> Map<u16, BindEntry> {
    if binds.contains_key(port) {
        binds.insert(port, BindEntry { shutdown: None, ..binds[port] })
    } else {
        binds
    }
}

/// The channel of an open port that was not used.
pub open spec fn shutdown_of(binds: Map<u16, BindEntry>, port: u16) -> Option<u64> {
    if binds.contains_key(port) {
        binds[port].shutdown
    } else {
        None
    }
}

/// The port that a number names: its last sixteen bits.
pub open spec fn port_named(number: u64) -> u16 {
    (number % 65536) as u16
}

/// What becomes of a request to close the port of a number.
pub open spec fn unbound(
    before: Map<u16, BindEntry>,
    after: Map<u16, BindEntry>,
    number: Option<u64>,
    shutdown: Option<u64>,
    reply: Seq<char>,
) -> bool {
    match number {
        Some(number) => {
            &&& reply == api_reply::plain_reply("200 OK"@, "{\"status\":\"unbound\"}"@)
            &&& shutdown == shutdown_of(before, port_named(number))
            &&& after == told_to_close(before, port_named(number))
        },
        None => {
            &&& reply == api_reply::plain_reply("400 Bad Request"@, "{\"error\":\"Invalid JSON\"}"@)
            &&& shutdown is None
            &&& after == before
        },
    }
}

/// Takes a request to close the port of a number: the channel by which it is told so, and what is
/// answered.
pub fn unbind(binds: &mut dashmap::DashMap<u16, BindEntry>, number: Option<u64>) -> (res: (
    Option<u64>,
    String,
))
    ensures
        unbound(
            registry::binds(*old(binds)),
            registry::binds(*final(binds)),
            number,
            res.0,
            res.1@,
        ),
{
    let ghost before = registry::binds(*binds);
    match number {
        Some(number) => {
            let port: u16 = (number % 65536) as u16;
            let reply = api_reply::reply("200 OK", "{\"status\":\"unbound\"}");
            match registry::binds_remove(binds, port) {
                Some(mut entry) => {
                    let shutdown: Option<u64> = entry.shutdown;
                    entry.shutdown = None;
                    registry::binds_insert(binds, port, entry);
                    assert(registry::binds(*binds) =~= told_to_close(before, port));
                    (shutdown, reply)
                },
                None => {
                    assert(registry::binds(*binds) =~= before);
                    (None, reply)
                },
            }
        },
        None => (None, api_reply::reply("400 Bad Request", "{\"error\":\"Invalid JSON\"}")),
    }
}

// ---------------------------------------------------------------------------------------------
// Banned addresses
// ---------------------------------------------------------------------------------------------

/// Banned addresses as JSON.
pub open spec fn bans_json(ips: Seq<Seq<char>>) -> Json {
    Json::Object(
        Map::<Seq<char>, Json>::empty().insert(
            "blacklist"@,
            Json::Array(ips.map_values(|ip: Seq<char>| Json::Text(ip))),
        ),
    )
}

/// Whether a reply lists addresses in order.
pub open spec fn lists(list: Seq<String>, ips: Set<Seq<char>>, reply: Seq<char>) -> bool {
    &&& text_map::in_order(list)
    &&& text_map::texts_of(list) == ips
    &&& reply == api_reply::sized_closing_reply(json::rendered(bans_json(json::views(list))))
}

/// Whether a reply lists the banned addresses in order.
pub open spec fn bans_listed(known: SecurityView, now: u64, reply: Seq<char>) -> bool {
    exists|list: Seq<String>| #[trigger]
        lists(list, security::active(known.bans, now).dom(), reply)
}

/// Addresses as a JSON array.
fn bans_array(list: &Vec<String>) -> (res: serde_json::Value)
    ensures
        json::model(res) == Json::Array(
            json::views(list@).map_values(|ip: Seq<char>| Json::Text(ip)),
        ),
{
    let ghost all = json::views(list@).map_values(|ip: Seq<char>| Json::Text(ip));
    let mut values: Vec<serde_json::Value> = Vec::new();
    let n: usize = list.len();
    let mut i: usize = 0;
    assert(json::models(values@) =~= all.take(0));
    while i < n
        invariant
            i <= n,
            n == list@.len(),
            all == json::views(list@).map_values(|ip: Seq<char>| Json::Text(ip)),
            json::models(values@) == all.take(i as int),
        decreases n - i,
    {
        let ghost before = values@;
        values.push(json::text(list[i].as_str()));
        proof {
            assert(json::models(values@) =~= json::models(before).push(
                Json::Text(list@[i as int]@),
            ));
            assert(all.take(i + 1) =~= all.take(i as int).push(Json::Text(list@[i as int]@)));
        }
        i += 1;
    }
    assert(all.take(n as int) =~= all);
    json::array(values)
}

/// The reply with the banned addresses.
pub fn list_bans(sm: &mut SecurityManager, now: u64) -> (res: String)
    requires
        old(sm).wf(),
    ensures
        final(sm).wf(),
        final(sm)@ == security::refreshed(old(sm)@, now),
        bans_listed(old(sm)@, now, res@),
{
    let ghost known = sm@;
    let list = security::get_blacklist(sm, now);
    let mut fields = json::no_fields();
    json::set_field(&mut fields, "blacklist", bans_array(&list));
    let body = json::render(&json::object(fields));
    let res = api_reply::reply_sized_and_close(body.as_str());
    assert(lists(list@, security::active(known.bans, now).dom(), res@));
    res
}

/// What is answered to a request to ban an address or to end its ban: whether it names one.
pub open spec fn ban_reply(ip: Option<Seq<char>>) -> Seq<char> {
    match ip {
        Some(_) => api_reply::plain_reply("200 OK"@, "{\"status\":\"success\"}"@),
        None => api_reply::plain_reply("400 Bad Request"@, "{\"error\":\"Invalid JSON\"}"@),
    }
}

/// Bans the address that a request names.
pub fn add_ban(sm: &mut SecurityManager, ip: Option<String>, now: u64) -> (res: String)
    requires
        old(sm).wf(),
        now + security::BAN_TTL_SECS <= u64::MAX,
    ensures
        final(sm).wf(),
        final(sm)@ == match string_option(ip) {
            Some(ip) => security::ban_added(old(sm)@, ip, now),
            None => old(sm)@,
        },
        res@ == ban_reply(string_option(ip)),
{
    match ip {
        Some(ip) => {
            let _ = security::add_to_blacklist(sm, ip, now);
            api_reply::reply("200 OK", "{\"status\":\"success\"}")
        },
        None => api_reply::reply("400 Bad Request", "{\"error\":\"Invalid JSON\"}"),
    }
}

/// Ends the ban of the address that a request names.
pub fn remove_ban(sm: &mut SecurityManager, ip: Option<String>) -> (res: String)
    requires
        old(sm).wf(),
    ensures
        final(sm).wf(),
        final(sm)@ == match string_option(ip) {
            Some(ip) => security::ban_removed(old(sm)@, ip),
            None => old(sm)@,
        },
        res@ == ban_reply(string_option(ip)),
{
    match ip {
        Some(ip) => {
            let _ = security::remove_from_blacklist(sm, ip.as_str());
            api_reply::reply("200 OK", "{\"status\":\"success\"}")
        },
        None => api_reply::reply("400 Bad Request", "{\"error\":\"Invalid JSON\"}"),
    }
}

// ---------------------------------------------------------------------------------------------
// A request
// ---------------------------------------------------------------------------------------------

/// What the dashboard is set up with.
#[derive(Debug)]
pub struct ApiSettings {
    pub admin_password: String,
    /// The dashboard's page.
    pub page: String,
    pub pairing: Pairing,
}

/// What is done with a request.
#[derive(Debug)]
pub enum ApiStep {
    /// The connection is closed without an answer.
    Close,
    Respond(String),
    /// The agent with this channel is told to change its address; the answer comes when it is
    /// back.
    Reset { control: u64, name: String, addr: SocketAddr },
    /// These are answered, with the traffic that was counted.
    State { agents: Vec<AgentRow>, binds: Vec<BindRow> },
    /// The port is listened on and opened; how that went is answered.
    Listen(BindConfig),
    /// The port with this channel is closed, and this is answered.
    Unbind { shutdown: Option<u64>, reply: String },
}

/// What a request can read and change.
pub struct ApiView {
    pub security: SecurityView,
    pub sessions: Map<Seq<char>, u64>,
    pub agents: Map<Seq<char>, AgentEntry>,
    pub binds: Map<u16, BindEntry>,
}

/// Whether a step answers a text.
pub open spec fn responds(step: ApiStep, reply: Seq<char>) -> bool {
    step matches ApiStep::Respond(text) && text@ == reply
}

/// The address that a request comes from, as text.
pub open spec fn asker(request: ApiRequestView, peer: IpAddr) -> Seq<char> {
    address_text::ip_text(
        api_request::client_ip(peer, request.headers.cf_ip, request.headers.forwarded_for),
    )
}

/// What is done with a request for a new address.
pub open spec fn reset_handled(
    before: ApiView,
    after: ApiView,
    request: ApiRequestView,
    now_ms: u64,
    response: u64,
    step: ApiStep,
) -> bool {
    let reset_step = match step {
        ApiStep::Reset { control, name, addr } => ResetStep::Send { control, name, addr },
        _ => ResetStep::Refuse(
            reset::reset_refusal(
                before.agents,
                reset::without_slashes(request.base_path),
                reset::query_token(request.query),
            )->Some_0,
        ),
    };
    &&& reset::reset_requested(
        before.agents,
        after.agents,
        request.base_path,
        request.query,
        now_ms,
        response,
        reset_step,
    )
    &&& reset_step matches ResetStep::Refuse(refusal) ==> responds(
        step,
        reset::refusal_text(refusal),
    )
    &&& after == (ApiView { agents: after.agents, ..before })
}

/// What is done with a request for which it is clear what it asks for, and that was counted for
/// or against the address that it comes from.
pub open spec fn route_handled(
    before: ApiView,
    after: ApiView,
    route: ApiRoute,
    request: ApiRequestView,
    settings: ApiSettings,
    ip: Seq<char>,
    clock: ApiClock,
    random: Option<[u8; 32]>,
    response: u64,
    step: ApiStep,
) -> bool {
    match route {
        ApiRoute::Index => {
            &&& responds(step, api_reply::page_reply(settings.page@))
            &&& after == before
        },
        ApiRoute::Login => {
            let password = text_field(json::parsed(request.body), "password"@);
            &&& step matches ApiStep::Respond(reply) && logged_in(
                before.sessions,
                after.sessions,
                password,
                settings.admin_password@,
                random,
                request.headers.https,
                clock.nanos,
                reply@,
            )
            &&& after == (ApiView {
                security: login_judged(
                    before.security,
                    password,
                    settings.admin_password@,
                    ip,
                    clock.unix_secs,
                ),
                sessions: after.sessions,
                ..before
            })
        },
        ApiRoute::Logout => {
            &&& responds(
                step,
                api_reply::cookie_reply(session::clear_cookie_text(request.headers.https)),
            )
            &&& after == (ApiView {
                sessions: logged_out(before.sessions, request.headers.cookie),
                ..before
            })
        },
        ApiRoute::Denied => {
            &&& responds(
                step,
                api_reply::plain_reply("401 Unauthorized"@, "{\"error\":\"Unauthorized\"}"@),
            )
            &&& after == before
        },
        ApiRoute::QrDenied => {
            &&& responds(
                step,
                "HTTP/1.1 401 Unauthorized\r\nContent-Type: text/plain\r\n\r\nUnauthorized"@,
            )
            &&& after == before
        },
        ApiRoute::Qr => {
            &&& responds(
                step,
                qr::qr_text(
                    qr::drawing(
                        encode_utf8(
                            json::rendered(
                                qr::pairing_json(settings.pairing, request.headers.host),
                            ),
                        ),
                    ),
                ),
            )
            &&& after == before
        },
        ApiRoute::Reset => reset_handled(before, after, request, clock.millis, response, step),
        ApiRoute::State => {
            &&& step matches ApiStep::State { agents, binds } && dashboard::shows_agents(
                agents@,
                before.agents,
            ) && dashboard::shows_binds(binds@, before.binds)
            &&& after == before
        },
        ApiRoute::Bind => {
            let asked_for = bind_request_in(json::parsed(request.body));
            &&& match bind_refusal(asked_for, before.agents, before.binds) {
                Some(refusal) => responds(step, bind_refusal_text(refusal)),
                None => step matches ApiStep::Listen(config) && config_of(
                    asked_for->Some_0,
                    config,
                ),
            }
            &&& after == before
        },
        ApiRoute::Unbind => {
            &&& step matches ApiStep::Unbind { shutdown, reply } && unbound(
                before.binds,
                after.binds,
                number_field(json::parsed(request.body), "port"@),
                shutdown,
                reply@,
            )
            &&& after == (ApiView { binds: after.binds, ..before })
        },
        ApiRoute::Bans => {
            &&& step matches ApiStep::Respond(reply) && bans_listed(
                before.security,
                clock.unix_secs,
                reply@,
            )
            &&& after == (ApiView {
                security: security::refreshed(before.security, clock.unix_secs),
                ..before
            })
        },
        ApiRoute::AddBan => {
            let named = text_field(json::parsed(request.body), "ip"@);
            &&& responds(step, ban_reply(named))
            &&& after == (ApiView {
                security: match named {
                    Some(named) => security::ban_added(before.security, named, clock.unix_secs),
                    None => before.security,
                },
                ..before
            })
        },
        ApiRoute::RemoveBan => {
            let named = text_field(json::parsed(request.body), "ip"@);
            &&& responds(step, ban_reply(named))
            &&& after == (ApiView {
                security: match named {
                    Some(named) => security::ban_removed(before.security, named),
                    None => before.security,
                },
                ..before
            })
        },
        ApiRoute::NotFound => {
            &&& responds(
                step,
                api_reply::plain_reply("404 Not Found"@, "{\"error\":\"Not Found\"}"@),
            )
            &&& after == before
        },
    }
}

/// What a request asks for, by who makes it.
pub open spec fn route_for(
    before: ApiView,
    request: ApiRequestView,
    settings: ApiSettings,
    now: u64,
) -> ApiRoute {
    route_of(
        request.method,
        request.base_path,
        request.query,
        authed(
            before.sessions,
            request.headers.password,
            request.headers.cookie,
            settings.admin_password@,
            now,
        ),
    )
}

/// What there is once a request of an address that is not banned was checked and counted.
pub open spec fn admitted(
    before: ApiView,
    request: ApiRequestView,
    settings: ApiSettings,
    ip: Seq<char>,
    clock: ApiClock,
) -> ApiView {
    ApiView {
        security: judged(
            security::refreshed(before.security, clock.unix_secs),
            route_for(before, request, settings, clock.nanos),
            request.base_path,
            ip,
            clock.unix_secs,
        ),
        sessions: asked(
            before.sessions,
            request.headers.password,
            request.headers.cookie,
            settings.admin_password@,
            clock.nanos,
        ),
        ..before
    }
}

/// What is done with a request from a peer: nothing but a refusal where the address that it comes
/// from is banned.
pub open spec fn request_handled(
    before: ApiView,
    after: ApiView,
    request: ApiRequestView,
    peer: IpAddr,
    settings: ApiSettings,
    clock: ApiClock,
    random: Option<[u8; 32]>,
    response: u64,
    step: ApiStep,
) -> bool {
    let ip = asker(request, peer);
    if security::banned(before.security, ip, clock.unix_secs) {
        &&& responds(
            step,
            api_reply::closing_reply(
                "429 Too Many Requests"@,
                "{\"error\":\"Too many attempts\"}"@,
            ),
        )
        &&& after == (ApiView {
            security: security::refreshed(before.security, clock.unix_secs),
            ..before
        })
    } else {
        route_handled(
            admitted(before, request, settings, ip, clock),
            after,
            route_for(before, request, settings, clock.nanos),
            request,
            settings,
            ip,
            clock,
            random,
            response,
            step,
        )
    }
}

/// What is done with the text of a request: one without a method and a path is not answered.
pub open spec fn text_handled(
    before: ApiView,
    after: ApiView,
    request: Seq<char>,
    peer: IpAddr,
    settings: ApiSettings,
    clock: ApiClock,
    random: Option<[u8; 32]>,
    response: u64,
    step: ApiStep,
) -> bool {
    match api_request::request_said(request) {
        Some(request) => request_handled(
            before,
            after,
            request,
            peer,
            settings,
            clock,
            random,
            response,
            step,
        ),
        None => step is Close && after == before,
    }
}

/// What a request can read and change.
pub open spec fn api_view(
    sm: SecurityManager,
    sessions: SessionStore,
    agents: dashmap::DashMap<String, AgentEntry>,
    binds: dashmap::DashMap<u16, BindEntry>,
) -> ApiView {
    ApiView {
        security: sm@,
        sessions: sessions.contents(),
        agents: registry::agents(agents),
        binds: registry::binds(binds),
    }
}

/// Does what a request asks for.
fn handle_route(
    route: ApiRoute,
    request: &ApiRequest,
    settings: &ApiSettings,
    ip: &str,
    clock: ApiClock,
    random: Option<[u8; 32]>,
    response: u64,
    sm: &mut SecurityManager,
    sessions: &mut SessionStore,
    agents: &mut dashmap::DashMap<String, AgentEntry>,
    binds: &mut dashmap::DashMap<u16, BindEntry>,
) -> (res: ApiStep)
    requires
        old(sm).wf(),
        old(sessions).wf(),
        clock.ok(),
    ensures
        final(sm).wf(),
        final(sessions).wf(),
        route_handled(
            api_view(*old(sm), *old(sessions), *old(agents), *old(binds)),
            api_view(*final(sm), *final(sessions), *final(agents), *final(binds)),
            route,
            request@,
            *settings,
            ip@,
            clock,
            random,
            response,
            res,
        ),
{
    match route {
        ApiRoute::Index => ApiStep::Respond(api_reply::reply_page(settings.page.as_str())),
        ApiRoute::Login => {
            let password = read_text_field(request.body.as_str(), "password");
            let reply = login(
                sm,
                sessions,
                password,
                settings.admin_password.as_str(),
                random,
                ip,
                request.headers.https,
                clock,
            );
            ApiStep::Respond(reply)
        },
        ApiRoute::Logout => ApiStep::Respond(
            logout(sessions, request.headers.cookie.as_str(), request.headers.https),
        ),
        ApiRoute::Denied => ApiStep::Respond(
            api_reply::reply("401 Unauthorized", "{\"error\":\"Unauthorized\"}"),
        ),
        ApiRoute::QrDenied => ApiStep::Respond(
            text::copy_text(
                "HTTP/1.1 401 Unauthorized\r\nContent-Type: text/plain\r\n\r\nUnauthorized",
            ),
        ),
        ApiRoute::Qr => ApiStep::Respond(
            qr::qr_reply(&settings.pairing, request.headers.host.as_str()),
        ),
        ApiRoute::Reset => {
            match reset::request_reset(
                agents,
                request.base_path.as_str(),
                request.query.as_str(),
                clock.millis,
                response,
            ) {
                ResetStep::Refuse(refusal) => ApiStep::Respond(reset::refusal_reply(refusal)),
                ResetStep::Send { control, name, addr } => ApiStep::Reset { control, name, addr },
            }
        },
        ApiRoute::State => {
            let agent_rows = dashboard::agent_rows(agents);
            let bind_rows = dashboard::bind_rows(binds);
            ApiStep::State { agents: agent_rows, binds: bind_rows }
        },
        ApiRoute::Bind => {
            let asked_for = read_bind_request(request.body.as_str());
            match decide_bind(asked_for, agents, binds) {
                Ok(config) => ApiStep::Listen(config),
                Err(refusal) => ApiStep::Respond(bind_refusal_reply(refusal)),
            }
        },
        ApiRoute::Unbind => {
            let number: Option<u64> = read_number_field(request.body.as_str(), "port");
            let (shutdown, reply) = unbind(binds, number);
            ApiStep::Unbind { shutdown, reply }
        },
        ApiRoute::Bans => ApiStep::Respond(list_bans(sm, clock.unix_secs)),
        ApiRoute::AddBan => {
            let named = read_text_field(request.body.as_str(), "ip");
            ApiStep::Respond(add_ban(sm, named, clock.unix_secs))
        },
        ApiRoute::RemoveBan => {
            let named = read_text_field(request.body.as_str(), "ip");
            ApiStep::Respond(remove_ban(sm, named))
        },
        ApiRoute::NotFound => ApiStep::Respond(
            api_reply::reply("404 Not Found", "{\"error\":\"Not Found\"}"),
        ),
    }
}

/// Handles the text of a request from a peer.
pub fn handle_api_connection(
    request: &str,
    peer: IpAddr,
    settings: &ApiSettings,
    clock: ApiClock,
    random: Option<[u8; 32]>,
    response: u64,
    sm: &mut SecurityManager,
    sessions: &mut SessionStore,
    agents: &mut dashmap::DashMap<String, AgentEntry>,
    binds: &mut dashmap::DashMap<u16, BindEntry>,
) -> (res: ApiStep)
    requires
        old(sm).wf(),
        old(sessions).wf(),
        clock.ok(),
    ensures
        final(sm).wf(),
        final(sessions).wf(),
        text_handled(
            api_view(*old(sm), *old(sessions), *old(agents), *old(binds)),
            api_view(*final(sm), *final(sessions), *final(agents), *final(binds)),
            request@,
            peer,
            *settings,
            clock,
            random,
            response,
            res,
        ),
{
    let request = match api_request::parse_api_request(request) {
        Some(request) => request,
        None => {
            return ApiStep::Close;
        },
    };
    let ip = api_request::api_client_ip(
        peer,
        as_option_str(&request.headers.cf_ip),
        as_option_str(&request.headers.forwarded_for),
    );
    if security::is_blacklisted(sm, ip.as_str(), clock.unix_secs) {
        return ApiStep::Respond(
            api_reply::reply_and_close(
                "429 Too Many Requests",
                "{\"error\":\"Too many attempts\"}",
            ),
        );
    }
    let authed = authenticate(
        sessions,
        request.headers.password.as_str(),
        request.headers.cookie.as_str(),
        settings.admin_password.as_str(),
        clock.nanos,
    );
    let route = route(
        request.method.as_str(),
        request.base_path.as_str(),
        request.query.as_str(),
        authed,
    );
    judge(sm, route, request.base_path.as_str(), ip.as_str(), clock.unix_secs);
    handle_route(
        route,
        &request,
        settings,
        ip.as_str(),
        clock,
        random,
        response,
        sm,
        sessions,
        agents,
        binds,
    )
}

// ---------------------------------------------------------------------------------------------
// Laws
// ---------------------------------------------------------------------------------------------

/// Somebody who is not the operator opens and closes no port, sees neither the agents nor the
/// open ports nor the banned addresses, bans nobody and ends no ban.
pub proof fn law_only_the_operator_is_served(
    method: Seq<char>,
    path: Seq<char>,
    query: Seq<char>,
)
    ensures
        ({
            let route = route_of(method, path, query, false);
            route is Index || route is Login || route is Logout || route is Denied
                || route is QrDenied || route is Reset || route is NotFound
        }),
{
    reveal_strlit("/api/");
    reveal_strlit("/api/state");
    reveal_strlit("/api/bind");
    reveal_strlit("/api/unbind");
    reveal_strlit("/api/blacklist");
    assert("/api/"@ =~= "/api/state"@.take(5));
    assert("/api/"@ =~= "/api/bind"@.take(5));
    assert("/api/"@ =~= "/api/unbind"@.take(5));
    assert("/api/"@ =~= "/api/blacklist"@.take(5));
}

/// A banned address gets nothing but the refusal, whatever it asks for and whatever it knows, and
/// changes nothing.
pub proof fn law_banned_address_is_refused(
    before: ApiView,
    after: ApiView,
    request: ApiRequestView,
    peer: IpAddr,
    settings: ApiSettings,
    clock: ApiClock,
    random: Option<[u8; 32]>,
    response: u64,
    step: ApiStep,
)
    requires
        security::banned(before.security, asker(request, peer), clock.unix_secs),
        request_handled(
            before,
            after,
            request,
            peer,
            settings,
            clock,
            random,
            response,
            step,
        ),
    ensures
        responds(
            step,
            api_reply::closing_reply(
                "429 Too Many Requests"@,
                "{\"error\":\"Too many attempts\"}"@,
            ),
        ),
        after.sessions == before.sessions,
        after.agents == before.agents,
        after.binds == before.binds,
{
}

/// Who logged in is the operator from then on, by the cookie that the reply sets, until the
/// session ends; and is not any more once they logged out.
pub proof fn law_login_opens_a_session(
    before: Map<Seq<char>, u64>,
    after: Map<Seq<char>, u64>,
    admin_password: Seq<char>,
    bytes: [u8; 32],
    https: bool,
    now: u64,
    later: u64,
    reply: Seq<char>,
    password: Seq<char>,
)
    requires
        before.dom().finite(),
        before.dom().len() <= session::MAX_SESSIONS,
        now + session::TTL <= u64::MAX,
        logged_in(
            before,
            after,
            Some(admin_password),
            admin_password,
            Some(bytes),
            https,
            now,
            reply,
        ),
        password != admin_password,
    ensures
        ({
            let cookie = session::COOKIE_NAME@ + "="@ + text::hex_text(bytes@);
            &&& reply == api_reply::cookie_reply(
                session::set_cookie_text(text::hex_text(bytes@), https),
            )
            &&& authed(after, password, cookie, admin_password, later) <==> later < now
                + session::TTL
            &&& !authed(logged_out(after, cookie), password, cookie, admin_password, later)
        }),
{
    let token = text::hex_text(bytes@);
    session::law_cookie_gives_token_back(bytes@);
    session::law_session_lifecycle(
        before,
        after,
        token,
        (now + session::TTL) as u64,
        now,
        later,
    );
}

/// A port is opened only with a user name and a password, in the range for proxies, for an agent
/// that is connected, and where it was not open.
pub proof fn law_opened_ports_are_guarded(
    request: BindRequestView,
    agents: Map<Seq<char>, AgentEntry>,
    binds: Map<u16, BindEntry>,
    config: BindConfig,
)
    requires
        bind_refusal(Some(request), agents, binds) is None,
        config_of(request, config),
    ensures
        SOCKS_PORT_MIN <= config.port <= SOCKS_PORT_MAX,
        given(string_option(config.user)),
        given(string_option(config.pass)),
        agents.contains_key(config.agent_id@),
        !binds.contains_key(config.port),
        1 <= config.max_conns <= MAX_CONNS,
{
}

// ---------------------------------------------------------------------------------------------
// What each request comes to
// ---------------------------------------------------------------------------------------------

/// The operator is served each path that the dashboard uses, where the query does not ask for a
/// new address.
pub proof fn law_operator_is_served(method: Seq<char>, query: Seq<char>)
    requires
        !reset::asks_reset(query),
    ensures
        route_of(method, "/"@, query, true) is Index,
        route_of(method, "/index.html"@, query, true) is Index,
        route_of("POST"@, "/api/login"@, query, true) is Login,
        route_of("POST"@, "/api/logout"@, query, true) is Logout,
        route_of(method, "/qr"@, query, true) is Qr,
        route_of(method, "/api/state"@, query, true) is State,
        route_of("POST"@, "/api/bind"@, query, true) is Bind,
        route_of("POST"@, "/api/unbind"@, query, true) is Unbind,
        route_of("GET"@, "/api/blacklist"@, query, true) is Bans,
        route_of("POST"@, "/api/blacklist"@, query, true) is AddBan,
        route_of("DELETE"@, "/api/blacklist"@, query, true) is RemoveBan,
{
    lemma_paths_differ();
}

proof fn lemma_paths_differ()
    ensures
        "/"@.len() == 1,
        "/qr"@.len() == 3,
        "/api/"@.len() == 5,
        "/api/bind"@.len() == 9,
        "/api/login"@.len() == 10,
        "/api/state"@.len() == 10,
        "/index.html"@.len() == 11,
        "/api/logout"@.len() == 11,
        "/api/unbind"@.len() == 11,
        "/api/blacklist"@.len() == 14,
        "/api/login"@[5] != "/api/state"@[5],
        "/index.html"@[1] != "/api/logout"@[1],
        "/index.html"@[1] != "/api/unbind"@[1],
        "/api/logout"@[5] != "/api/unbind"@[5],
        "GET"@.len() == 3,
        "POST"@.len() == 4,
        "DELETE"@.len() == 6,
{
    reveal_strlit("/");
    reveal_strlit("/qr");
    reveal_strlit("/api/");
    reveal_strlit("/api/bind");
    reveal_strlit("/api/login");
    reveal_strlit("/api/state");
    reveal_strlit("/index.html");
    reveal_strlit("/api/logout");
    reveal_strlit("/api/unbind");
    reveal_strlit("/api/blacklist");
    reveal_strlit("GET");
    reveal_strlit("POST");
    reveal_strlit("DELETE");
}

/// Whoever is not the operator gets the page and may log in and out; every other path below
/// `/api/`, and the code that a phone scans, is denied.
pub proof fn law_others_are_denied(method: Seq<char>, rest: Seq<char>, query: Seq<char>)
    ensures
        route_of(method, "/"@, query, false) is Index,
        route_of("POST"@, "/api/login"@, query, false) is Login,
        route_of("POST"@, "/api/logout"@, query, false) is Logout,
        route_of(method, "/qr"@, query, false) is QrDenied,
        !(method == "POST"@ && (rest == "login"@ || rest == "logout"@)) ==> route_of(
            method,
            "/api/"@ + rest,
            query,
            false,
        ) is Denied,
{
    lemma_paths_differ();
    reveal_strlit("/api/");
    reveal_strlit("/api/login");
    reveal_strlit("/api/logout");
    reveal_strlit("/index.html");
    reveal_strlit("/qr");
    reveal_strlit("login");
    reveal_strlit("logout");
    let path = "/api/"@ + rest;
    assert(path.take(5) =~= "/api/"@);
    assert("/api/"@.is_prefix_of(path));
    assert(path.skip(5) =~= rest);
    assert("/api/login"@.skip(5) =~= "login"@);
    assert("/api/logout"@.skip(5) =~= "logout"@);
    assert(path[1] == 'a');
    assert("/index.html"@[1] == 'i');
    assert("/qr"@[1] == 'q');
    assert(!"/api/"@.is_prefix_of("/qr"@));
    assert(!"/api/"@.is_prefix_of("/"@));
}

/// The link on the dashboard leads to the request for a new address, for the operator and for
/// everybody who has it.
pub proof fn law_reset_link_leads_there(
    method: Seq<char>,
    id: Seq<char>,
    token: Seq<char>,
    authed: bool,
)
    requires
        id.len() > 0 && id[0] != '/',
        !id.contains('?'),
        !token.contains('&'),
        id != "index.html"@ && id != "qr"@,
        !"api/"@.is_prefix_of(id),
    ensures
        ({
            let url = dashboard::reset_url(id, token);
            let mark = text::position(url, '?');
            route_of(method, url.take(mark), url.skip(mark + 1), authed) is Reset
        }),
{
    reset::law_reset_link_is_understood(id, token);
    lemma_paths_differ();
    reveal_strlit("/api/");
    reveal_strlit("api/");
    reveal_strlit("/api/login");
    reveal_strlit("/api/logout");
    reveal_strlit("/index.html");
    reveal_strlit("/qr");
    reveal_strlit("index.html");
    reveal_strlit("qr");
    let path = seq!['/'] + id;
    assert(path.skip(1) =~= id);
    assert("/index.html"@.skip(1) =~= "index.html"@);
    assert("/qr"@.skip(1) =~= "qr"@);
    assert("api/"@.len() == 4);
    assert(!is_api_path(path)) by {
        if is_api_path(path) {
            assert(path.take(5) =~= "/api/"@);
            assert(id.take(4) =~= "api/"@) by {
                assert forall|i: int| 0 <= i < 4 implies id.take(4)[i] == "api/"@[i] by {
                    assert(path[i + 1] == path.take(5)[i + 1]);
                }
            }
        }
    }
    assert(is_api_path("/api/login"@)) by {
        assert("/api/login"@.take(5) =~= "/api/"@);
    }
    assert(is_api_path("/api/logout"@)) by {
        assert("/api/logout"@.take(5) =~= "/api/"@);
    }
}

/// Every other path is told not to be there.
pub proof fn law_other_paths_are_not_there(
    method: Seq<char>,
    path: Seq<char>,
    query: Seq<char>,
    authed: bool,
)
    requires
        path != "/"@ && path != "/index.html"@ && path != "/qr"@,
        authed || !"/api/"@.is_prefix_of(path),
        path != "/api/state"@ && path != "/api/blacklist"@,
        method == "POST"@ ==> path != "/api/login"@ && path != "/api/logout"@ && path
            != "/api/bind"@ && path != "/api/unbind"@,
    ensures
        route_of(method, path, query, authed) == if reset::asks_reset(query) {
            ApiRoute::Reset
        } else {
            ApiRoute::NotFound
        },
{
}

/// Somebody is the operator exactly with the operator's password or a session that has not
/// ended.
pub proof fn law_who_is_the_operator(
    sessions: Map<Seq<char>, u64>,
    password: Seq<char>,
    cookie: Seq<char>,
    admin_password: Seq<char>,
    now: u64,
)
    ensures
        authed(sessions, admin_password, cookie, admin_password, now),
        password != admin_password && session::cookie_token(cookie) is None ==> !authed(
            sessions,
            password,
            cookie,
            admin_password,
            now,
        ),
        session::cookie_token(cookie) matches Some(token) ==> {
            &&& password != admin_password ==> (authed(
                sessions,
                password,
                cookie,
                admin_password,
                now,
            ) <==> sessions.contains_key(token) && now < sessions[token])
            &&& !logged_out(sessions, cookie).contains_key(token)
        },
        forall|other: Seq<char>|
            session::cookie_token(cookie) != Some(other) ==> (#[trigger] logged_out(
                sessions,
                cookie,
            ).contains_key(other) <==> sessions.contains_key(other)),
{
}

/// A login with the right password opens a session for seven days and is answered with its
/// cookie; with a wrong one it is answered 401 and counted, without one 400; both open no
/// session.
pub proof fn law_login_outcomes(
    before: Map<Seq<char>, u64>,
    after: Map<Seq<char>, u64>,
    known: SecurityView,
    password: Option<Seq<char>>,
    admin_password: Seq<char>,
    random: Option<[u8; 32]>,
    https: bool,
    ip: Seq<char>,
    now: u64,
    secs: u64,
    reply: Seq<char>,
)
    requires
        before.dom().finite(),
        before.dom().len() <= 100,
        now + 604_800_000_000_000 <= u64::MAX,
        logged_in(before, after, password, admin_password, random, https, now, reply),
    ensures
        password is None ==> after == before && reply == api_reply::closing_reply(
            "400 Bad Request"@,
            "{\"error\":\"Bad request\"}"@,
        ) && login_judged(known, password, admin_password, ip, secs) == known,
        password is Some && password != Some(admin_password) ==> after == before && reply
            == api_reply::closing_reply("401 Unauthorized"@, "{\"error\":\"Unauthorized\"}"@),
        password is Some && password != Some(admin_password) && !known.bans.contains_key(ip)
            && !known.attempts.contains_key(ip) ==> login_judged(
            known,
            password,
            admin_password,
            ip,
            secs,
        ).attempts[ip] == 1,
        password == Some(admin_password) ==> !login_judged(
            known,
            password,
            admin_password,
            ip,
            secs,
        ).attempts.contains_key(ip),
        password == Some(admin_password) && random is Some ==> after.contains_key(
            text::hex_text(random->0@),
        ) && after[text::hex_text(random->0@)] == now + 604_800_000_000_000 && reply
            == api_reply::cookie_reply(session::set_cookie_text(text::hex_text(random->0@), https)),
        password == Some(admin_password) && random is None ==> after == before && reply
            == api_reply::closing_reply(
            "500 Internal Server Error"@,
            "{\"error\":\"Internal error\"}"@,
        ),
{
    if password == Some(admin_password) && random is Some {
        session::law_added_session_is_there(
            before,
            after,
            text::hex_text(random->0@),
            (now + 604_800_000_000_000) as u64,
            now,
        );
    }
}

/// A request for a port is read as what its fields of those names say.
pub proof fn law_bind_request_fields(value: Json, fields: Map<Seq<char>, Json>)
    requires
        value == Json::Object(fields),
    ensures
        ({
            let request = bind_request(value);
            &&& request.agent_id == if fields.contains_key("agent_id"@) {
                json::text_of(fields["agent_id"@])
            } else {
                None
            }
            &&& request.user == if fields.contains_key("user"@) {
                json::text_of(fields["user"@])
            } else {
                None
            }
            &&& request.pass == if fields.contains_key("pass"@) {
                json::text_of(fields["pass"@])
            } else {
                None
            }
            &&& request.port == if fields.contains_key("port"@) {
                json::number_of(fields["port"@])
            } else {
                None
            }
            &&& request.limited == fields.contains_key("max_conns"@)
            &&& request.max_conns == if fields.contains_key("max_conns"@) {
                json::number_of(fields["max_conns"@])
            } else {
                None
            }
        }),
{
}

/// A port is opened exactly if the request names a connected agent, a free port from 51300 to
/// 51399, a user name and a password, and allows 1 to 65535 connections or says nothing of them;
/// each refusal tells what is missing.
pub proof fn law_which_ports_are_opened(
    request: BindRequestView,
    agents: Map<Seq<char>, AgentEntry>,
    binds: Map<u16, BindEntry>,
)
    ensures
        ({
            let refusal = bind_refusal(Some(request), agents, binds);
            let room = !request.limited || (request.max_conns matches Some(n) && 1 <= n <= 65535);
            let named = request.agent_id is Some && (request.port matches Some(n) && n <= 65535);
            let secret = (request.user matches Some(user) && user.len() > 0) && (
            request.pass matches Some(pass) && pass.len() > 0);
            let in_range = request.port matches Some(n) && 51300 <= n <= 51399;
            let there = request.agent_id matches Some(id) && agents.contains_key(id);
            let free = request.port matches Some(n) && !binds.contains_key(n as u16);
            &&& refusal is None <==> room && named && secret && in_range && there && free
            &&& !room ==> refusal == Some(BindRefusal::MaxConns)
            &&& room && !named ==> refusal == Some(BindRefusal::Invalid)
            &&& room && named && !secret ==> refusal == Some(BindRefusal::Credentials)
            &&& room && named && secret && !in_range ==> refusal == Some(BindRefusal::PortRange)
            &&& room && named && secret && in_range && !there ==> refusal == Some(
                BindRefusal::NoAgent,
            )
            &&& room && named && secret && in_range && there && !free ==> refusal == Some(
                BindRefusal::Bound,
            )
        }),
        bind_refusal(None, agents, binds) == Some(BindRefusal::Invalid),
{
}

/// What is opened is what was asked for: the agent, the port, the user name and the password are
/// those of the request, the counter starts at nothing, and where no number of connections is
/// given it is 256.
pub proof fn law_opened_as_asked(request: BindRequestView, config: BindConfig)
    requires
        config_of(request, config),
        request.limited ==> request.max_conns is Some && request.max_conns->0 <= 65535,
    ensures
        request.agent_id == Some(config.agent_id@),
        request.port == Some(config.port as u64),
        request.user matches Some(user) ==> config.user matches Some(given) && given@ == user,
        request.pass matches Some(pass) ==> config.pass matches Some(given) && given@ == pass,
        config.usage == 0,
        request.limited ==> config.max_conns == request.max_conns->0,
        !request.limited ==> config.max_conns == 256,
{
}

/// A port that is closed gives up the channel that it was opened with, once; every other port
/// stays as it is. A request without a port is answered 400 and closes nothing.
pub proof fn law_unbind_closes_its_port(
    before: Map<u16, BindEntry>,
    after: Map<u16, BindEntry>,
    port: u16,
    other: u16,
    shutdown: Option<u64>,
    reply: Seq<char>,
)
    ensures
        unbound(before, after, Some(port as u64), shutdown, reply) ==> {
            &&& before.contains_key(port) ==> shutdown == before[port].shutdown
                && after.contains_key(port) && after[port].shutdown is None
                && after[port].agent_id == before[port].agent_id && after[port].usage
                == before[port].usage && after[port].user == before[port].user
            &&& !before.contains_key(port) ==> shutdown is None && after == before
            &&& other != port ==> (after.contains_key(other) <==> before.contains_key(other))
                && after[other] == before[other]
            &&& reply == "HTTP/1.1 "@ + "200 OK"@ + "\r\nContent-Type: application/json\r\n\r\n"@
                + "{\"status\":\"unbound\"}"@
        },
        unbound(before, after, None, shutdown, reply) ==> after == before && shutdown is None
            && reply == "HTTP/1.1 "@ + "400 Bad Request"@
            + "\r\nContent-Type: application/json\r\n\r\n"@ + "{\"error\":\"Invalid JSON\"}"@,
{
}

/// The list of banned addresses that the operator is shown holds every address that is banned,
/// and no other, in order.
pub proof fn law_all_bans_are_listed(known: SecurityView, now: u64, reply: Seq<char>)
    requires
        bans_listed(known, now, reply),
    ensures
        exists|list: Seq<String>|
            {
                &&& forall|ip: Seq<char>| #[trigger]
                    text_map::texts_of(list).contains(ip) <==> security::banned(known, ip, now)
                &&& text_map::in_order(list)
                &&& #[trigger] json::field(
                    bans_json(json::views(list)),
                    "blacklist"@,
                ) matches Some(Json::Array(rows)) && rows.len() == list.len() && (forall|i: int|
                    0 <= i < list.len() ==> #[trigger] rows[i] == Json::Text(list[i]@))
                &&& reply == api_reply::sized_closing_reply(
                    json::rendered(bans_json(json::views(list))),
                )
            },
{
    let list = choose|list: Seq<String>| #[trigger]
        lists(list, security::active(known.bans, now).dom(), reply);
    assert(json::field(bans_json(json::views(list)), "blacklist"@) is Some);
    assert forall|ip: Seq<char>| #[trigger]
        text_map::texts_of(list).contains(ip) <==> security::banned(known, ip, now) by {
        assert(security::active(known.bans, now).dom().contains(ip) <==> security::banned(
            known,
            ip,
            now,
        ));
    }
}

/// Whether the one who asks is the operator.
pub open spec fn is_operator(
    before: ApiView,
    request: ApiRequestView,
    settings: ApiSettings,
    clock: ApiClock,
) -> bool {
    authed(
        before.sessions,
        request.headers.password,
        request.headers.cookie,
        settings.admin_password@,
        clock.nanos,
    )
}

/// The operator's request to ban an address bans it for fifteen minutes, and that to free one
/// frees it; both are answered.
pub proof fn law_operator_bans_and_frees(
    before: ApiView,
    after: ApiView,
    request: ApiRequestView,
    peer: IpAddr,
    settings: ApiSettings,
    clock: ApiClock,
    random: Option<[u8; 32]>,
    response: u64,
    step: ApiStep,
    named: Seq<char>,
)
    requires
        clock.unix_secs + 900 <= u64::MAX,
        !security::banned(before.security, asker(request, peer), clock.unix_secs),
        request_handled(
            before,
            after,
            request,
            peer,
            settings,
            clock,
            random,
            response,
            step,
        ),
        is_operator(before, request, settings, clock),
        request.base_path == "/api/blacklist"@,
        !reset::asks_reset(request.query),
        text_field(json::parsed(request.body), "ip"@) == Some(named),
    ensures
        request.method == "POST"@ || request.method == "DELETE"@ ==> responds(
            step,
            api_reply::plain_reply("200 OK"@, "{\"status\":\"success\"}"@),
        ) && after.binds == before.binds && after.agents == before.agents,
        request.method == "POST"@ ==> security::banned(after.security, named, clock.unix_secs),
        request.method == "POST"@ && !before.security.bans.contains_key(named)
            ==> after.security.bans[named] == clock.unix_secs + 900,
        request.method == "DELETE"@ ==> !security::banned(after.security, named, clock.unix_secs),
        request.method == "GET"@ ==> (step matches ApiStep::Respond(reply) && bans_listed(
            security::succeeded(
                security::refreshed(before.security, clock.unix_secs),
                asker(request, peer),
            ),
            clock.unix_secs,
            reply@,
        )),
{
    law_operator_is_served(request.method, request.query);
    reveal_strlit("/api/");
    reveal_strlit("/api/blacklist");
    lemma_paths_differ();
    assert("/api/blacklist"@.take(5) =~= "/api/"@);
    assert(is_api_path(request.base_path));
}

/// Who is not the operator and asks for something below `/api/` is answered 401 and counted as
/// having failed; no agent, no port and no session that has not ended is touched.
pub proof fn law_denied_requests_count(
    before: ApiView,
    after: ApiView,
    request: ApiRequestView,
    peer: IpAddr,
    settings: ApiSettings,
    clock: ApiClock,
    random: Option<[u8; 32]>,
    response: u64,
    step: ApiStep,
)
    requires
        clock.unix_secs + 900 <= u64::MAX,
        !before.security.bans.contains_key(asker(request, peer)),
        failures_below(before.security, asker(request, peer)),
        request_handled(
            before,
            after,
            request,
            peer,
            settings,
            clock,
            random,
            response,
            step,
        ),
        !is_operator(before, request, settings, clock),
        route_for(before, request, settings, clock.nanos) is Denied || route_for(
            before,
            request,
            settings,
            clock.nanos,
        ) is QrDenied,
    ensures
        step is Respond,
        after.security.attempts.contains_key(asker(request, peer)),
        after.security.attempts[asker(request, peer)] == security::failures(
            before.security.attempts,
            asker(request, peer),
        ) + 1,
        security::failures(before.security.attempts, asker(request, peer)) >= 9
            ==> security::banned(after.security, asker(request, peer), clock.unix_secs),
        after.agents == before.agents,
        after.binds == before.binds,
        forall|token: Seq<char>|
            session::valid(before.sessions, token, clock.nanos) ==> #[trigger] session::valid(
                after.sessions,
                token,
                clock.nanos,
            ),
        route_for(before, request, settings, clock.nanos) is Denied ==> responds(
            step,
            api_reply::plain_reply("401 Unauthorized"@, "{\"error\":\"Unauthorized\"}"@),
        ),
{
}

/// Whether a failure more of an address can be counted.
pub open spec fn failures_below(known: SecurityView, ip: Seq<char>) -> bool {
    known.attempts.contains_key(ip) ==> known.attempts[ip] < u64::MAX
}

/// A request changes what it is for and nothing else: only one for a new address touches the
/// agents, only one that closes a port touches the ports, and besides a login and a logout no
/// session that has not ended is touched.
pub proof fn law_requests_change_what_they_are_for(
    before: ApiView,
    after: ApiView,
    request: ApiRequestView,
    peer: IpAddr,
    settings: ApiSettings,
    clock: ApiClock,
    random: Option<[u8; 32]>,
    response: u64,
    step: ApiStep,
    token: Seq<char>,
)
    requires
        request_handled(
            before,
            after,
            request,
            peer,
            settings,
            clock,
            random,
            response,
            step,
        ),
    ensures
        ({
            let route = route_for(before, request, settings, clock.nanos);
            &&& !(route is Reset) ==> after.agents == before.agents
            &&& !(route is Unbind) ==> after.binds == before.binds
            &&& !(route is Login) && !(route is Logout) ==> (session::valid(
                after.sessions,
                token,
                clock.nanos,
            ) <==> session::valid(before.sessions, token, clock.nanos))
            &&& !(step is Listen) || route is Bind
            &&& !(step is State) || route is State
            &&& !(step is Reset) || route is Reset
        }),
{
}

/// What each refused request for a port is answered.
pub proof fn law_bind_refusals_are_told(refusal: BindRefusal)
    ensures
        ({
            let told = bind_refusal_text(refusal);
            let json = "\r\nContent-Type: application/json\r\n\r\n"@;
            match refusal {
                BindRefusal::Invalid => told == "HTTP/1.1 "@ + "400 Bad Request"@ + json
                    + "{\"error\":\"Invalid JSON\"}"@,
                BindRefusal::MaxConns => told == "HTTP/1.1 "@ + "400 Bad Request"@ + json
                    + "{\"error\":\"Invalid max_conns\"}"@,
                BindRefusal::Credentials => told == "HTTP/1.1 "@ + "400 Bad Request"@ + json
                    + "{\"error\":\"Missing credentials\"}"@,
                BindRefusal::PortRange => told == "HTTP/1.1 "@ + "422 Unprocessable Content"@ + json
                    + ("{\"error\":\"Port must be between "@ + text::decimal(51300) + " and "@
                    + text::decimal(51399) + "\"}"@),
                BindRefusal::NoAgent => told == "HTTP/1.1 "@ + "404 Not Found"@ + json
                    + "{\"error\":\"Agent not found\"}"@,
                BindRefusal::Bound => told == "HTTP/1.1 "@ + "409 Conflict"@ + json
                    + "{\"error\":\"Port already bound\"}"@,
            }
        }),
{
}

/// A ban or its end is answered with success where an address is named, and else with 400.
pub proof fn law_bans_are_answered(ip: Seq<char>)
    ensures
        ban_reply(Some(ip)) == "HTTP/1.1 "@ + "200 OK"@
            + "\r\nContent-Type: application/json\r\n\r\n"@ + "{\"status\":\"success\"}"@,
        ban_reply(None) == "HTTP/1.1 "@ + "400 Bad Request"@
            + "\r\nContent-Type: application/json\r\n\r\n"@ + "{\"error\":\"Invalid JSON\"}"@,
{
}

/// A field of a body is found by its name, where the body is an object that has it and it is a
/// text, or a number.
pub proof fn law_fields_of_a_body(fields: Map<Seq<char>, Json>, key: Seq<char>, said: Seq<char>, n: u64)
    ensures
        fields.contains_pair(key, Json::Text(said)) ==> text_field(Some(Json::Object(fields)), key)
            == Some(said) && number_field(Some(Json::Object(fields)), key) is None,
        fields.contains_pair(key, Json::Number(n as int)) ==> number_field(
            Some(Json::Object(fields)),
            key,
        ) == Some(n) && text_field(Some(Json::Object(fields)), key) is None,
        !fields.contains_key(key) ==> text_field(Some(Json::Object(fields)), key) is None
            && number_field(Some(Json::Object(fields)), key) is None,
        text_field(None, key) is None && number_field(None, key) is None,
        text_field(Some(Json::Text(said)), key) is None,
{
}

/// What cannot be read as a request is closed without an answer and changes nothing; what can is
/// handled as what it says.
pub proof fn law_unreadable_requests_are_closed(
    before: ApiView,
    after: ApiView,
    request: Seq<char>,
    peer: IpAddr,
    settings: ApiSettings,
    clock: ApiClock,
    random: Option<[u8; 32]>,
    response: u64,
    step: ApiStep,
)
    requires
        text_handled(before, after, request, peer, settings, clock, random, response, step),
    ensures
        api_request::request_said(request) is None ==> step is Close && after == before,
        step is Close ==> api_request::request_said(request) is None,
        api_request::request_said(request) matches Some(said) ==> request_handled(
            before,
            after,
            said,
            peer,
            settings,
            clock,
            random,
            response,
            step,
        ),
{
}

/// The operator is shown the agents and the ports as they are, and the code that a phone scans
/// with what the server is known by; the page is everybody's.
pub proof fn law_operator_is_shown_everything(
    before: ApiView,
    after: ApiView,
    request: ApiRequestView,
    peer: IpAddr,
    settings: ApiSettings,
    clock: ApiClock,
    random: Option<[u8; 32]>,
    response: u64,
    step: ApiStep,
)
    requires
        !security::banned(before.security, asker(request, peer), clock.unix_secs),
        request_handled(
            before,
            after,
            request,
            peer,
            settings,
            clock,
            random,
            response,
            step,
        ),
        !reset::asks_reset(request.query),
    ensures
        request.base_path == "/api/state"@ && is_operator(before, request, settings, clock) ==> (
        step matches ApiStep::State { agents, binds } && dashboard::shows_agents(
            agents@,
            before.agents,
        ) && dashboard::shows_binds(binds@, before.binds)),
        request.base_path == "/qr"@ && is_operator(before, request, settings, clock) ==> responds(
            step,
            qr::qr_text(
                qr::drawing(
                    encode_utf8(
                        json::rendered(qr::pairing_json(settings.pairing, request.headers.host)),
                    ),
                ),
            ),
        ),
        request.base_path == "/"@ ==> responds(step, api_reply::page_reply(settings.page@)),
        request.base_path == "/api/bind"@ && request.method == "POST"@ && is_operator(
            before,
            request,
            settings,
            clock,
        ) ==> match bind_refusal(
            bind_request_in(json::parsed(request.body)),
            before.agents,
            before.binds,
        ) {
            Some(refusal) => responds(step, bind_refusal_text(refusal)),
            None => step matches ApiStep::Listen(config) && config_of(
                bind_request_in(json::parsed(request.body))->Some_0,
                config,
            ),
        },
        request.base_path == "/api/unbind"@ && request.method == "POST"@ && is_operator(
            before,
            request,
            settings,
            clock,
        ) ==> (step matches ApiStep::Unbind { shutdown, reply } && unbound(
            before.binds,
            after.binds,
            number_field(json::parsed(request.body), "port"@),
            shutdown,
            reply@,
        )),
        request.base_path == "/api/logout"@ && request.method == "POST"@ && (
        session::cookie_token(request.headers.cookie) is Some) ==> !after.sessions.contains_key(
            session::cookie_token(request.headers.cookie)->0,
        ) && responds(
            step,
            api_reply::cookie_reply(session::clear_cookie_text(request.headers.https)),
        ),
{
    law_operator_is_served(request.method, request.query);
    law_others_are_denied(request.method, Seq::empty(), request.query);
}

} // verus!
