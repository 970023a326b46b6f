//! The HTTP side of a proxy port: `CONNECT` and requests with absolute addresses.
use vstd::prelude::*;
use vstd::slice::{slice_subrange, slice_to_vec};
use vstd::utf8::{decode_utf8, encode_utf8, is_char_boundary, valid_utf8};

use crate::base64_codec;
use crate::net::IpAddr;
use crate::progress::Progress;
use crate::security::{self, SecurityManager};
use crate::session;
use crate::socks5;
use crate::socks5::client::{self, Report};
use crate::socks5::open::ConnectError;
use crate::text;

verus! {

/// The longest header that is taken.
pub const MAX_HEADER_BYTES: usize = 8192;

// ---------------------------------------------------------------------------------------------
// Reading the header
// ---------------------------------------------------------------------------------------------

/// The blank line that ends a header, with the end of the line before it.
pub open spec fn blank_line() -> Seq<u8> {
    seq![13u8, 10, 13, 10]
}

/// Where the header in received bytes ends. It must end within its limit.
pub open spec fn header_progress(b: Seq<u8>) -> Progress<(), ()> {
    match text::seek(b, blank_line()) {
        Some(i) => if i + 4 <= MAX_HEADER_BYTES {
            Progress::Done { value: (), used: (i + 4) as usize }
        } else {
            Progress::Failed(())
        },
        None => if b.len() <= MAX_HEADER_BYTES {
            Progress::More(1)
        } else {
            Progress::Failed(())
        },
    }
}

/// Where the blank line stands in bytes.
pub fn find_blank_line(b: &[u8]) -> (res: Option<usize>)
    ensures
        res is Some <==> text::seek(b@, blank_line()) is Some,
        res matches Some(i) ==> i == text::seek(b@, blank_line())->0 && i + 4 <= b@.len()
            && b@.subrange(i as int, i + 4) == blank_line(),
{
    let pattern: [u8; 4] = [13, 10, 13, 10];
    let pattern: &[u8] = &pattern;
    assert(pattern@ =~= blank_line());
    proof {
        text::lemma_seek(b@, blank_line());
    }
    text::find_bytes(b, pattern)
}

/// Where the header in received bytes ends.
pub fn read_header(b: &[u8]) -> (res: Progress<(), ()>)
    ensures
        res == header_progress(b@),
        res matches Progress::Done { used, .. } ==> 4 <= used <= b@.len() && b@.subrange(
            used - 4,
            used as int,
        ) == blank_line(),
{
    let len: usize = b.len();
    match find_blank_line(b) {
        Some(i) => if i + 4 <= MAX_HEADER_BYTES {
            Progress::Done { value: (), used: i + 4 }
        } else {
            Progress::Failed(())
        },
        None => if len <= MAX_HEADER_BYTES {
            Progress::More(1)
        } else {
            Progress::Failed(())
        },
    }
}

// ---------------------------------------------------------------------------------------------
// The request
// ---------------------------------------------------------------------------------------------

/// A proxy request.
#[derive(Debug)]
pub enum Request {
    /// A tunnel to a target.
    Connect { target: String },
    /// A request that is sent to a target.
    Absolute { target: String, outbound: Vec<u8> },
}

/// `Request`, with texts and bytes by their contents.
pub enum RequestView {
    Connect { target: Seq<char> },
    Absolute { target: Seq<char>, outbound: Seq<u8> },
}

impl Request {
    /// The request by its contents.
    pub open spec fn view(&self) -> RequestView {
        match self {
            Request::Connect { target } => RequestView::Connect { target: target@ },
            Request::Absolute { target, outbound } => RequestView::Absolute {
                target: target@,
                outbound: outbound@,
            },
        }
    }
}

/// Where the host and port of an address end: at the first slash, question mark or number sign.
pub open spec fn authority_end(s: Seq<char>) -> int
    decreases s.len(),
{
    if s.len() == 0 || s[0] == '/' || s[0] == '?' || s[0] == '#' {
        0
    } else {
        1 + authority_end(s.skip(1))
    }
}

/// The target and the path of an absolute address. The port is 80 where there is none; the
/// target must be one that can be put on the wire.
pub open spec fn absolute_of(uri: Seq<char>) -> Option<(Seq<char>, Seq<char>)> {
    if !"http://"@.is_prefix_of(uri) {
        None
    } else {
        let rest = uri.skip(7);
        let end = authority_end(rest);
        let authority = rest.take(end);
        let tail = rest.skip(end);
        let target = if authority.contains(':') {
            authority
        } else {
            authority + ":80"@
        };
        if authority.len() == 0 || authority.contains('@') {
            None
        } else if tail.len() > 0 && tail[0] == '#' {
            None
        } else if !(socks5::target_bytes(target) is Ok) {
            None
        } else if tail.len() == 0 {
            Some((target, "/"@))
        } else if tail[0] == '?' {
            Some((target, "/"@ + tail))
        } else {
            Some((target, tail))
        }
    }
}

/// Where the host and port of an address end.
fn find_authority_end(s: &[char]) -> (res: usize)
    ensures
        res == authority_end(s@),
        res <= s@.len(),
        res < s@.len() ==> s@[res as int] == '/' || s@[res as int] == '?' || s@[res as int] == '#',
{
    let n: usize = s.len();
    let mut i: usize = 0;
    assert(s@.skip(0) =~= s@);
    while i < n && s[i] != '/' && s[i] != '?' && s[i] != '#'
        invariant
            i <= n,
            n == s@.len(),
            authority_end(s@) == i + authority_end(s@.skip(i as int)),
        decreases n - i,
    {
        assert(s@.skip(i as int).skip(1) =~= s@.skip(i + 1));
        i += 1;
    }
    i
}

/// The target and the path of an absolute address.
pub fn absolute_target(uri: &str) -> (res: Result<(String, String), ()>)
    ensures
        match res {
            Ok((target, path)) => absolute_of(uri@) == Some((target@, path@)),
            Err(_) => absolute_of(uri@) is None,
        },
{
    proof {
        reveal_strlit("http://");
    }
    let chars = text::to_chars(uri);
    let scheme = text::to_chars("http://");
    let s = chars.as_slice();
    if !text::starts_with(s, scheme.as_slice()) {
        return Err(());
    }
    let rest = slice_subrange(s, 7, s.len());
    assert(rest@ =~= uri@.skip(7));
    let n: usize = rest.len();
    let end: usize = find_authority_end(rest);
    let authority = slice_subrange(rest, 0, end);
    let tail = slice_subrange(rest, end, n);
    proof {
        assert(authority@ =~= rest@.take(end as int));
        assert(tail@ =~= rest@.skip(end as int));
    }
    if authority.len() == 0 || text::has_char(authority, '@') {
        return Err(());
    }
    if tail.len() > 0 && tail[0] == '#' {
        return Err(());
    }
    let host = text::from_chars(authority);
    let target = if text::has_char(authority, ':') {
        host
    } else {
        text::join(host.as_str(), ":80")
    };
    match socks5::validate_target(target.as_str()) {
        Ok(_) => {},
        Err(_) => {
            return Err(());
        },
    }
    let path = if tail.len() == 0 {
        text::copy_text("/")
    } else if tail[0] == '?' {
        text::join("/", text::from_chars(tail).as_str())
    } else {
        text::from_chars(tail)
    };
    Ok((target, path))
}

/// What the lines of a header come to: the authorization, and the lines that are passed on. A
/// line without a colon, or a second authorization, makes the header bad.
pub open spec fn headers_of(lines: Seq<Seq<char>>) -> Option<
    (Option<Seq<char>>, Seq<Seq<char>>),
>
    decreases lines.len(),
{
    if lines.len() == 0 {
        Some((None, seq![]))
    } else {
        match (headers_of(lines.drop_last()), text::cut(lines.last(), ':')) {
            (Some((authorization, kept)), Some((name, value))) => {
                let authorizes = text::same_but_case(name, "proxy-authorization"@);
                if authorizes && authorization is Some {
                    None
                } else {
                    Some(
                        (
                            if authorizes {
                                Some(text::trimmed(value))
                            } else {
                                authorization
                            },
                            if text::same_but_case(name, "connection"@) {
                                kept
                            } else {
                                kept.push(lines.last())
                            },
                        ),
                    )
                }
            },
            _ => None,
        }
    }
}

/// Lines, each with its end.
pub open spec fn lines_text(lines: Seq<Seq<char>>) -> Seq<char>
    decreases lines.len(),
{
    if lines.len() == 0 {
        seq![]
    } else {
        lines_text(lines.drop_last()) + lines.last() + "\r\n"@
    }
}

/// The request that is sent to a target: for a path, over one connection alone.
pub open spec fn outbound_text(method: Seq<char>, path: Seq<char>, kept: Seq<Seq<char>>) -> Seq<
    char,
> {
    method + " "@ + path + " HTTP/1.1\r\n"@ + lines_text(kept) + "Connection: close\r\n\r\n"@
}

/// What a header without its blank line asks for, and its authorization. Nothing where it is bad.
pub open spec fn request_of(head: Seq<char>) -> Option<(RequestView, Option<Seq<char>>)> {
    let lines = text::pieces_by(head, "\r\n"@);
    let parts = text::words(lines[0]);
    if parts.len() != 3 || parts[2] != "HTTP/1.1"@ {
        None
    } else {
        match headers_of(lines.skip(1)) {
            Some((authorization, kept)) => if text::same_but_case(parts[0], "CONNECT"@) {
                if socks5::target_bytes(parts[1]) is Ok {
                    Some((RequestView::Connect { target: parts[1] }, authorization))
                } else {
                    None
                }
            } else {
                match absolute_of(parts[1]) {
                    Some((target, path)) => Some(
                        (
                            RequestView::Absolute {
                                target,
                                outbound: encode_utf8(outbound_text(parts[0], path, kept)),
                            },
                            authorization,
                        ),
                    ),
                    None => None,
                }
            },
            None => None,
        }
    }
}

/// What the bytes of a header ask for: all of them are UTF-8, and the last four are left out.
pub open spec fn request_of_bytes(header: Seq<u8>) -> Option<(RequestView, Option<Seq<char>>)> {
    if valid_utf8(header) {
        request_of(decode_utf8(header.take(header.len() - 4)))
    } else {
        None
    }
}

/// What the lines of a header come to.
fn read_headers<'a>(lines: &[&'a [char]]) -> (res: Option<(Option<String>, Vec<&'a [char]>)>)
    ensures
        match res {
            Some((authorization, kept)) => headers_of(text::contents(lines@)) == Some(
                (client::string_option(authorization), text::contents(kept@)),
            ),
            None => headers_of(text::contents(lines@)) is None,
        },
{
    let authorization_name = text::to_chars("proxy-authorization");
    let connection_name = text::to_chars("connection");
    let ghost all = text::contents(lines@);
    let mut authorization: Option<String> = None;
    let mut kept: Vec<&'a [char]> = Vec::new();
    let n: usize = lines.len();
    let mut i: usize = 0;
    proof {
        assert(all.take(0) =~= seq![]);
        assert(text::contents(kept@) =~= seq![]);
    }
    while i < n
        invariant
            i <= n,
            n == lines@.len(),
            all == text::contents(lines@),
            authorization_name@ == "proxy-authorization"@,
            connection_name@ == "connection"@,
            headers_of(all.take(i as int)) == Some(
                (client::string_option(authorization), text::contents(kept@)),
            ),
        decreases n - i,
    {
        let line: &'a [char] = lines[i];
        proof {
            assert(all.take(i + 1).drop_last() =~= all.take(i as int));
            assert(all.take(i + 1).last() == line@);
        }
        let (name, value) = match text::split_once(line, ':') {
            Some(parts) => parts,
            None => {
                proof {
                    lemma_bad_header(all, i + 1);
                }
                return None;
            },
        };
        let authorizes = text::eq_ignore_ascii_case(name, authorization_name.as_slice());
        if authorizes {
            if let Some(_) = authorization {
                proof {
                    lemma_bad_header(all, i + 1);
                }
                return None;
            }
            authorization = Some(text::from_chars(text::trim(value)));
        }
        if !text::eq_ignore_ascii_case(name, connection_name.as_slice()) {
            let ghost before = kept@;
            kept.push(line);
            assert(text::contents(kept@) =~= text::contents(before).push(line@));
        }
        i += 1;
    }
    assert(all.take(n as int) =~= all);
    Some((authorization, kept))
}

/// A header that starts badly is bad.
proof fn lemma_bad_header(lines: Seq<Seq<char>>, n: int)
    requires
        0 <= n <= lines.len(),
        headers_of(lines.take(n)) is None,
    ensures
        headers_of(lines) is None,
    decreases lines.len() - n,
{
    if n < lines.len() {
        assert(lines.take(n + 1).drop_last() =~= lines.take(n));
        lemma_bad_header(lines, n + 1);
    } else {
        assert(lines.take(n) =~= lines);
    }
}

/// Lines, each with its end.
fn join_lines(lines: &Vec<&[char]>) -> (res: String)
    ensures
        res@ == lines_text(text::contents(lines@)),
{
    let ghost all = text::contents(lines@);
    let mut res: String = String::new();
    let n: usize = lines.len();
    let mut i: usize = 0;
    assert(all.take(0) =~= seq![]);
    while i < n
        invariant
            i <= n,
            n == lines@.len(),
            all == text::contents(lines@),
            res@ == lines_text(all.take(i as int)),
        decreases n - i,
    {
        proof {
            assert(all.take(i + 1).drop_last() =~= all.take(i as int));
            assert(all.take(i + 1).last() == lines@[i as int]@);
        }
        res = text::join(res.as_str(), text::from_chars(lines[i]).as_str());
        res = text::join(res.as_str(), "\r\n");
        i += 1;
    }
    assert(all.take(n as int) =~= all);
    res
}

/// The request that is sent to a target.
fn write_outbound(method: &[char], path: &str, kept: &Vec<&[char]>) -> (res: Vec<u8>)
    ensures
        res@ == encode_utf8(outbound_text(method@, path@, text::contents(kept@))),
{
    let mut res: String = text::join(text::from_chars(method).as_str(), " ");
    res = text::join(res.as_str(), path);
    res = text::join(res.as_str(), " HTTP/1.1\r\n");
    res = text::join(res.as_str(), join_lines(kept).as_str());
    res = text::join(res.as_str(), "Connection: close\r\n\r\n");
    text::to_bytes(res.as_str())
}

/// What a header asks for, and its authorization. Its last four bytes are those of the blank
/// line: they are left out, and must not start inside a character.
pub fn parse_request(header: &[u8]) -> (res: Result<(Request, Option<String>), ()>)
    requires
        header@.len() >= 4,
        valid_utf8(header@) ==> is_char_boundary(header@, header@.len() - 4),
    ensures
        match res {
            Ok((request, authorization)) => request_of_bytes(header@) == Some(
                (request@, client::string_option(authorization)),
            ),
            Err(_) => request_of_bytes(header@) is None,
        },
{
    if text::string_from_utf8(slice_to_vec(header)).is_err() {
        return Err(());
    }
    let head = slice_subrange(header, 0, header.len() - 4);
    proof {
        assert(head@ =~= header@.take(header@.len() - 4));
        vstd::utf8::valid_utf8_split(header@, header@.len() - 4);
    }
    let head = match text::string_from_utf8(slice_to_vec(head)) {
        Ok(head) => head,
        Err(_) => {
            return Err(());
        },
    };
    proof {
        reveal_strlit("\r\n");
    }
    let chars = text::to_chars(head.as_str());
    let line_end = text::to_chars("\r\n");
    let version = text::to_chars("HTTP/1.1");
    let connect = text::to_chars("CONNECT");
    let lines = text::split_by(chars.as_slice(), line_end.as_slice());
    let parts = text::split_whitespace(lines[0]);
    let ghost all_lines = text::pieces_by(head@, "\r\n"@);
    let ghost all_parts = text::words(all_lines[0]);
    proof {
        assert(all_lines[0] == lines@[0]@);
        assert(all_parts.len() == parts@.len());
        if parts@.len() == 3 {
            assert(all_parts[0] == parts@[0]@ && all_parts[1] == parts@[1]@ && all_parts[2]
                == parts@[2]@);
        }
    }
    if parts.len() != 3 || !text::same(parts[2], version.as_slice()) {
        return Err(());
    }
    let others = slice_subrange(lines.as_slice(), 1, lines.len());
    assert(text::contents(others@) =~= all_lines.skip(1));
    let (authorization, kept) = match read_headers(others) {
        Some(headers) => headers,
        None => {
            return Err(());
        },
    };
    let target = text::from_chars(parts[1]);
    if text::eq_ignore_ascii_case(parts[0], connect.as_slice()) {
        return match socks5::validate_target(target.as_str()) {
            Ok(_) => Ok((Request::Connect { target }, authorization)),
            Err(_) => Err(()),
        };
    }
    match absolute_target(target.as_str()) {
        Ok((target, path)) => {
            let outbound = write_outbound(parts[0], path.as_str(), &kept);
            Ok((Request::Absolute { target, outbound }, authorization))
        },
        Err(_) => Err(()),
    }
}

// ---------------------------------------------------------------------------------------------
// Who may use the proxy
// ---------------------------------------------------------------------------------------------

/// Whether decoded credentials are those of a user: the name and the password with a colon
/// between them.
pub open spec fn credentials_are(
    decoded: Option<Seq<u8>>,
    user: Seq<char>,
    password: Seq<char>,
) -> bool {
    match decoded {
        Some(bytes) => valid_utf8(bytes) && decode_utf8(bytes) == user + ":"@ + password,
        None => false,
    }
}

/// Whether decoded credentials are those of a user.
pub fn check_credentials(decoded: Option<Vec<u8>>, user: &str, password: &str) -> (res: bool)
    ensures
        res == credentials_are(
            match decoded {
                Some(bytes) => Some(bytes@),
                None => None,
            },
            user@,
            password@,
        ),
{
    match decoded {
        Some(bytes) => match text::string_from_utf8(bytes) {
            Ok(credentials) => {
                let wanted = text::join(text::join(user, ":").as_str(), password);
                session::constant_time_eq(credentials.as_str(), wanted.as_str())
            },
            Err(_) => false,
        },
        None => false,
    }
}

/// Whether an authorization lets a client in: it is basic, and its credentials are those that are
/// asked for. Without an authorization, or without credentials to compare with, nobody gets in.
pub open spec fn is_authorized(
    authorization: Option<Seq<char>>,
    user: Option<Seq<char>>,
    password: Option<Seq<char>>,
) -> bool {
    match (authorization, user, password) {
        (Some(authorization), Some(user), Some(password)) => {
            let parts = text::words(authorization);
            &&& parts.len() == 2
            &&& text::same_but_case(parts[0], "Basic"@)
            &&& credentials_are(base64_codec::decoded(parts[1]), user, password)
        },
        _ => false,
    }
}

/// Whether an authorization lets a client in.
pub fn authorized(
    authorization: Option<&str>,
    user: Option<&str>,
    password: Option<&str>,
) -> (res: bool)
    ensures
        res == is_authorized(
            socks5::text_option(authorization),
            socks5::text_option(user),
            socks5::text_option(password),
        ),
{
    match (authorization, user, password) {
        (Some(authorization), Some(user), Some(password)) => {
            let chars = text::to_chars(authorization);
            let basic = text::to_chars("Basic");
            let parts = text::split_whitespace(chars.as_slice());
            let ghost all = text::words(authorization@);
            assert(all.len() == parts@.len());
            if parts.len() != 2 {
                return false;
            }
            assert(all[0] == parts@[0]@ && all[1] == parts@[1]@);
            if !text::eq_ignore_ascii_case(parts[0], basic.as_slice()) {
                return false;
            }
            let decoded = base64_codec::decode(text::from_chars(parts[1]).as_str());
            check_credentials(decoded, user, password)
        },
        _ => false,
    }
}

// ---------------------------------------------------------------------------------------------
// A client
// ---------------------------------------------------------------------------------------------

/// A response without a body.
pub open spec fn response_text(status: Seq<char>, extra_headers: Seq<char>) -> Seq<char> {
    "HTTP/1.1 "@ + status + "\r\n"@ + extra_headers
        + "Content-Length: 0\r\nConnection: close\r\n\r\n"@
}

/// A response without a body.
pub fn write_response(status: &str, extra_headers: Option<&str>) -> (res: String)
    ensures
        res@ == response_text(
            status@,
            match extra_headers {
                Some(headers) => headers@,
                None => ""@,
            },
        ),
{
    let mut res: String = text::join("HTTP/1.1 ", status);
    res = text::join(res.as_str(), "\r\n");
    res = text::join(
        res.as_str(),
        match extra_headers {
            Some(headers) => headers,
            None => "",
        },
    );
    text::join(res.as_str(), "Content-Length: 0\r\nConnection: close\r\n\r\n")
}

/// What is to be done with a client.
#[derive(Debug)]
pub enum HttpStep {
    /// Wait for more bytes.
    Read,
    /// Close the connection.
    Close,
    /// Send this and close.
    Respond(String),
    /// Connect to a target, send it these bytes, and tell the client where it asked for a tunnel.
    Open { target: String, outbound: Vec<u8>, tell: bool },
}

/// `HttpStep`, with texts and bytes by their contents.
pub enum HttpStepView {
    Read,
    Close,
    Respond(Seq<char>),
    Open { target: Seq<char>, outbound: Seq<u8>, tell: bool },
}

impl HttpStep {
    /// The step by its contents.
    pub open spec fn view(&self) -> HttpStepView {
        match self {
            HttpStep::Read => HttpStepView::Read,
            HttpStep::Close => HttpStepView::Close,
            HttpStep::Respond(text) => HttpStepView::Respond(text@),
            HttpStep::Open { target, outbound, tell } => HttpStepView::Open {
                target: target@,
                outbound: outbound@,
                tell: *tell,
            },
        }
    }
}

/// What is done for a request that may be made: nothing where there is no room; elsewhere the
/// target gets what the request says, and what came behind the header.
pub open spec fn request_outcome(
    request: RequestView,
    remainder: Seq<u8>,
    limit_reached: bool,
) -> HttpStepView {
    if limit_reached {
        HttpStepView::Respond(response_text("429 Too Many Requests"@, ""@))
    } else {
        match request {
            RequestView::Connect { target } => HttpStepView::Open {
                target,
                outbound: remainder,
                tell: true,
            },
            RequestView::Absolute { target, outbound } => HttpStepView::Open {
                target,
                outbound: outbound + remainder,
                tell: false,
            },
        }
    }
}

/// What all the bytes that a client has sent amount to, and what is noted of its address.
pub open spec fn http_outcome(
    b: Seq<u8>,
    user: Option<Seq<char>>,
    password: Option<Seq<char>>,
    limit_reached: bool,
) -> (HttpStepView, Report) {
    match header_progress(b) {
        Progress::More(_) => (HttpStepView::Read, Report::Nothing),
        Progress::Failed(_) => (HttpStepView::Close, Report::Nothing),
        Progress::Done { value, used } => match request_of_bytes(b.take(used as int)) {
            None => (
                HttpStepView::Respond(response_text("400 Bad Request"@, ""@)),
                Report::Nothing,
            ),
            Some((request, authorization)) => if is_authorized(authorization, user, password) {
                (request_outcome(request, b.skip(used as int), limit_reached), Report::Success)
            } else {
                (
                    HttpStepView::Respond(
                        response_text(
                            "407 Proxy Authentication Required"@,
                            "Proxy-Authenticate: Basic realm=\"proxy\"\r\n"@,
                        ),
                    ),
                    Report::Failure,
                )
            },
        },
    }
}

/// What is done for a request that may be made.
fn serve(request: Request, remainder: &[u8], limit_reached: bool) -> (res: HttpStep)
    ensures
        res@ == request_outcome(request@, remainder@, limit_reached),
{
    if limit_reached {
        return HttpStep::Respond(write_response("429 Too Many Requests", None));
    }
    match request {
        Request::Connect { target } => HttpStep::Open {
            target,
            outbound: slice_to_vec(remainder),
            tell: true,
        },
        Request::Absolute { target, outbound } => {
            let mut bytes: Vec<u8> = Vec::new();
            bytes.extend_from_slice(outbound.as_slice());
            bytes.extend_from_slice(remainder);
            assert(bytes@ =~= outbound@ + remainder@);
            HttpStep::Open { target, outbound: bytes, tell: false }
        },
    }
}

/// Takes all the bytes that a client has sent so far.
pub fn handle_client(
    b: &[u8],
    peer: Option<IpAddr>,
    user: Option<&str>,
    password: Option<&str>,
    limit_reached: bool,
    sm: &mut SecurityManager,
    now: u64,
) -> (res: HttpStep)
    requires
        old(sm).wf(),
        now + security::BAN_TTL_SECS <= u64::MAX,
    ensures
        final(sm).wf(),
        ({
            let (step, report) = http_outcome(
                b@,
                socks5::text_option(user),
                socks5::text_option(password),
                limit_reached,
            );
            res@ == step && final(sm)@ == client::noted(old(sm)@, report, peer, now)
        }),
{
    let len: usize = b.len();
    match read_header(b) {
        Progress::More(_) => HttpStep::Read,
        Progress::Failed(_) => HttpStep::Close,
        Progress::Done { value: _, used } => {
            let header = slice_subrange(b, 0, used);
            let remainder = slice_subrange(b, used, len);
            proof {
                assert(header@ =~= b@.take(used as int));
                assert(remainder@ =~= b@.skip(used as int));
                assert(header@.skip(used - 4) =~= b@.subrange(used - 4, used as int));
                assert(header@[used - 4] == header@.skip(used - 4)[0]);
                assert(!vstd::utf8::is_continuation_byte(13u8));
                if valid_utf8(header@) {
                    vstd::utf8::is_char_boundary_iff_not_is_continuation_byte(header@, used - 4);
                }
            }
            match parse_request(header) {
                Ok((request, authorization)) => {
                    if authorized(client::as_option_str(&authorization), user, password) {
                        client::note(sm, Report::Success, peer, now);
                        serve(request, remainder, limit_reached)
                    } else {
                        client::note(sm, Report::Failure, peer, now);
                        HttpStep::Respond(
                            write_response(
                                "407 Proxy Authentication Required",
                                Some("Proxy-Authenticate: Basic realm=\"proxy\"\r\n"),
                            ),
                        )
                    }
                },
                Err(_) => HttpStep::Respond(write_response("400 Bad Request", None)),
            }
        },
    }
}

/// What a client is told whose target could not be reached.
pub open spec fn failure_text(error: ConnectError) -> Seq<char> {
    match error {
        ConnectError::AgentUnavailable(_) => response_text("503 Service Unavailable"@, ""@),
        ConnectError::Target(_) => response_text("502 Bad Gateway"@, ""@),
    }
}

/// What a client is told whose target could not be reached.
pub fn connect_failure(error: ConnectError) -> (res: String)
    ensures
        res@ == failure_text(error),
{
    match error {
        ConnectError::AgentUnavailable(_) => write_response("503 Service Unavailable", None),
        ConnectError::Target(_) => write_response("502 Bad Gateway", None),
    }
}

/// What a client is told whose tunnel is open.
pub fn connection_established() -> (res: String)
    ensures
        res@ == "HTTP/1.1 200 Connection Established\r\n\r\n"@,
{
    text::copy_text("HTTP/1.1 200 Connection Established\r\n\r\n")
}

// ---------------------------------------------------------------------------------------------
// Laws
// ---------------------------------------------------------------------------------------------

/// A client that sends the user name and the password in base64 as basic credentials is let in.
pub proof fn law_right_credentials_are_authorized(
    user: Seq<char>,
    password: Seq<char>,
    value: Seq<char>,
)
    requires
        value.len() > 0,
        forall|i: int| 0 <= i < value.len() ==> !text::is_white(#[trigger] value[i]),
    ensures
        base64_codec::decoded(value) == Some(encode_utf8(user + ":"@ + password)) ==> is_authorized(
            Some("Basic "@ + value),
            Some(user),
            Some(password),
        ),
{
    let wanted = user + ":"@ + password;
    vstd::utf8::encode_utf8_valid_utf8(wanted);
    vstd::utf8::encode_utf8_decode_utf8(wanted);
    reveal_strlit("Basic ");
    reveal_strlit("Basic");
    assert("Basic "@ =~= "Basic"@ + seq![' ']);
    text::lemma_two_words("Basic"@, value);
}

/// No target is opened for a client that is not authorized, and none where there is no room.
pub proof fn law_only_the_authorized_are_served(
    b: Seq<u8>,
    user: Option<Seq<char>>,
    password: Option<Seq<char>>,
    limit_reached: bool,
)
    ensures
        http_outcome(b, user, password, limit_reached).0 is Open ==> !limit_reached && user is Some
            && password is Some && http_outcome(b, user, password, limit_reached).1
            == Report::Success,
{
}

/// Every target that is opened for a client is one that can be put on the wire.
pub proof fn law_opened_targets_are_usable(
    b: Seq<u8>,
    user: Option<Seq<char>>,
    password: Option<Seq<char>>,
    limit_reached: bool,
)
    ensures
        http_outcome(b, user, password, limit_reached).0 matches HttpStepView::Open {
            target,
            ..
        } ==> socks5::target_bytes(target) is Ok,
{
}

// ---------------------------------------------------------------------------------------------
// What a request comes to
// ---------------------------------------------------------------------------------------------

/// Whether bytes are a request's header: they end with their first blank line.
pub open spec fn is_header(h: Seq<u8>) -> bool {
    &&& h.len() >= 4
    &&& h.skip(h.len() - 4) == seq![13u8, 10, 13, 10]
    &&& forall|j: int|
        0 <= j < h.len() - 4 ==> #[trigger] h.subrange(j, j + 4) != seq![13u8, 10, 13, 10]
}

/// A header ends at its first blank line and may have 8192 bytes, whatever follows it.
pub proof fn law_header_ends_at_the_blank_line(h: Seq<u8>, rest: Seq<u8>)
    requires
        is_header(h),
    ensures
        h.len() <= 8192 ==> header_progress(h + rest) == (Progress::<(), ()>::Done {
            value: (),
            used: h.len() as usize,
        }),
        h.len() > 8192 ==> header_progress(h + rest) is Failed,
{
    let b = h + rest;
    let k = h.len() - 4;
    let end = seq![13u8, 10, 13, 10];
    assert(b.subrange(k, k + 4) =~= h.skip(k));
    assert(text::stands_at(b, end, k));
    assert forall|j: int| 0 <= j < k implies !text::stands_at(b, end, j) by {
        assert(b.subrange(j, j + 4) =~= h.subrange(j, j + 4));
    }
    text::lemma_seek_is(b, end, k);
}

/// Before the blank line has come, one more byte at least is waited for, until there are more
/// than 8192 of them.
pub proof fn law_header_is_waited_for(b: Seq<u8>)
    requires
        forall|j: int|
            0 <= j <= b.len() - 4 ==> #[trigger] b.subrange(j, j + 4) != seq![13u8, 10, 13, 10],
    ensures
        b.len() <= 8192 ==> header_progress(b) == (Progress::<(), ()>::More(1)),
        b.len() > 8192 ==> header_progress(b) is Failed,
{
    let end = seq![13u8, 10, 13, 10];
    text::lemma_seek(b, end);
    match text::seek(b, end) {
        Some(i) => {
            assert(b.subrange(i, i + 4) == end);
        },
        None => {},
    }
}

/// What a client sends behind its header reaches the target as it is, in order, behind what the
/// header alone gives; nothing else of the outcome depends on it. For a tunnel that is all that
/// the target is sent.
pub proof fn law_body_reaches_the_target(
    h: Seq<u8>,
    rest: Seq<u8>,
    user: Option<Seq<char>>,
    password: Option<Seq<char>>,
    limit_reached: bool,
)
    requires
        is_header(h),
        h.len() <= 8192,
    ensures
        ({
            let alone = http_outcome(h, user, password, limit_reached);
            let outcome = http_outcome(h + rest, user, password, limit_reached);
            &&& outcome.1 == alone.1
            &&& match alone.0 {
                HttpStepView::Open { target, outbound, tell } => {
                    &&& outcome.0 == (HttpStepView::Open { target, outbound: outbound + rest, tell })
                    &&& tell ==> outbound.len() == 0
                },
                _ => outcome.0 == alone.0,
            }
        }),
{
    law_header_ends_at_the_blank_line(h, rest);
    law_header_ends_at_the_blank_line(h, Seq::empty());
    assert(h + Seq::<u8>::empty() =~= h);
    assert((h + rest).take(h.len() as int) =~= h);
    assert((h + rest).skip(h.len() as int) =~= rest);
    assert(h.take(h.len() as int) =~= h);
    assert(h.skip(h.len() as int) =~= Seq::<u8>::empty());
    match request_of_bytes(h) {
        Some((RequestView::Absolute { target, outbound }, _)) => {
            assert(outbound + Seq::<u8>::empty() =~= outbound);
        },
        _ => {},
    }
}

/// For every authorized request with an absolute address, where there is room, what is sent to
/// the target is the rewritten header and then all that the client sent behind the blank line.
pub proof fn law_absolute_request_is_sent_whole(
    h: Seq<u8>,
    rest: Seq<u8>,
    user: Option<Seq<char>>,
    password: Option<Seq<char>>,
)
    requires
        is_header(h),
        h.len() <= 8192,
        request_of_bytes(h) matches Some((request, authorization)) && request is Absolute
            && is_authorized(authorization, user, password),
    ensures
        http_outcome(h + rest, user, password, false).1 == Report::Success,
        http_outcome(h + rest, user, password, false).0 matches HttpStepView::Open {
            target,
            outbound,
            tell,
        } && !tell && (request_of_bytes(h)->0).0 == (RequestView::Absolute {
            target,
            outbound: outbound.take(outbound.len() - rest.len()),
        }) && outbound.skip(outbound.len() - rest.len()) == rest,
{
    law_header_ends_at_the_blank_line(h, rest);
    assert((h + rest).take(h.len() as int) =~= h);
    assert((h + rest).skip(h.len() as int) =~= rest);
    match request_of_bytes(h) {
        Some((RequestView::Absolute { target, outbound }, _)) => {
            assert((outbound + rest).take(outbound.len() as int) =~= outbound);
            assert((outbound + rest).skip(outbound.len() as int) =~= rest);
        },
        _ => {},
    }
}

/// A request that is none is answered 400 and not counted; one without the port's user name and
/// password is answered 407, with the scheme to use, and counted as a failure; one that finds no
/// room is answered 429. A tunnel is opened to the target that the request names, and told.
pub proof fn law_requests_are_answered(
    h: Seq<u8>,
    rest: Seq<u8>,
    user: Option<Seq<char>>,
    password: Option<Seq<char>>,
)
    requires
        is_header(h),
        h.len() <= 8192,
    ensures
        ({
            let full = http_outcome(h + rest, user, password, true);
            let outcome = http_outcome(h + rest, user, password, false);
            match request_of_bytes(h) {
                None => outcome == full && outcome == (
                    HttpStepView::Respond(
                        "HTTP/1.1 "@ + "400 Bad Request"@ + "\r\n"@ + ""@
                            + "Content-Length: 0\r\nConnection: close\r\n\r\n"@,
                    ),
                    Report::Nothing,
                ),
                Some((request, authorization)) => if !is_authorized(authorization, user, password) {
                    outcome == full && outcome == (
                        HttpStepView::Respond(
                            "HTTP/1.1 "@ + "407 Proxy Authentication Required"@ + "\r\n"@
                                + "Proxy-Authenticate: Basic realm=\"proxy\"\r\n"@
                                + "Content-Length: 0\r\nConnection: close\r\n\r\n"@,
                        ),
                        Report::Failure,
                    )
                } else {
                    &&& full == (
                        HttpStepView::Respond(
                            "HTTP/1.1 "@ + "429 Too Many Requests"@ + "\r\n"@ + ""@
                                + "Content-Length: 0\r\nConnection: close\r\n\r\n"@,
                        ),
                        Report::Success,
                    )
                    &&& request matches RequestView::Connect { target } ==> outcome == (
                        HttpStepView::Open { target, outbound: rest, tell: true },
                        Report::Success,
                    )
                },
            }
        }),
{
    law_header_ends_at_the_blank_line(h, rest);
    assert((h + rest).take(h.len() as int) =~= h);
    assert((h + rest).skip(h.len() as int) =~= rest);
}

/// A target that cannot be reached is told as 502, an agent that is not there as 503.
pub proof fn law_failures_are_told_apart(
    agent: crate::socks5::open::AgentFault,
    target: crate::socks5::open::TargetFault,
)
    ensures
        failure_text(ConnectError::Target(target)) == "HTTP/1.1 "@ + "502 Bad Gateway"@ + "\r\n"@
            + ""@ + "Content-Length: 0\r\nConnection: close\r\n\r\n"@,
        failure_text(ConnectError::AgentUnavailable(agent)) == "HTTP/1.1 "@
            + "503 Service Unavailable"@ + "\r\n"@ + ""@
            + "Content-Length: 0\r\nConnection: close\r\n\r\n"@,
{
}

/// Whoever is authorized has sent exactly the user name and the password of the port, in the
/// scheme Basic: with another value, another scheme or none, and on a port that has none, nobody
/// is.
pub proof fn law_wrong_credentials_are_not_authorized(
    scheme: Seq<char>,
    value: Seq<char>,
    user: Option<Seq<char>>,
    password: Option<Seq<char>>,
)
    requires
        scheme.len() > 0,
        value.len() > 0,
        forall|i: int| 0 <= i < scheme.len() ==> !text::is_white(#[trigger] scheme[i]),
        forall|i: int| 0 <= i < value.len() ==> !text::is_white(#[trigger] value[i]),
    ensures
        is_authorized(Some(scheme + seq![' '] + value), user, password) ==> text::same_but_case(
            scheme,
            "Basic"@,
        ) && user is Some && password is Some && (base64_codec::decoded(value) matches Some(bytes)
            && bytes == encode_utf8(user->0 + ":"@ + password->0)),
        !is_authorized(None, user, password),
        !is_authorized(Some(scheme), user, password),
        !is_authorized(Some(scheme + seq![' '] + value), None, password),
        !is_authorized(Some(scheme + seq![' '] + value), user, None),
{
    text::lemma_two_words(scheme, value);
    text::law_words(scheme, ' ', Seq::empty());
    match base64_codec::decoded(value) {
        Some(bytes) => {
            if valid_utf8(bytes) {
                vstd::utf8::decode_utf8_encode_utf8(bytes);
            }
        },
        None => {},
    }
}

/// The absolute address of a request names the target before its path, with port 80 where it
/// names none; the path is what stands behind, and begins with a slash. A user name, a fragment
/// or another scheme is not taken.
pub proof fn law_absolute_address(authority: Seq<char>, tail: Seq<char>)
    requires
        forall|i: int|
            0 <= i < authority.len() ==> #[trigger] authority[i] != '/' && authority[i] != '?'
                && authority[i] != '#',
        tail.len() > 0 ==> tail[0] == '/' || tail[0] == '?' || tail[0] == '#',
    ensures
        ({
            let target = if authority.contains(':') {
                authority
            } else {
                authority + ":80"@
            };
            let outcome = absolute_of("http://"@ + authority + tail);
            if authority.len() == 0 || authority.contains('@') || (tail.len() > 0 && tail[0] == '#')
                || socks5::target_bytes(target) is Err {
                outcome is None
            } else {
                outcome matches Some((named, path)) && named == target && path == if tail.len() > 0
                    && tail[0] == '/' {
                    tail
                } else {
                    seq!['/'] + tail
                }
            }
        }),
{
    reveal_strlit("http://");
    reveal_strlit("/");
    assert("http://"@.len() == 7);
    let uri = "http://"@ + authority + tail;
    assert(uri.take(7) =~= "http://"@);
    assert("http://"@.is_prefix_of(uri));
    let rest = uri.skip(7);
    assert(rest =~= authority + tail);
    lemma_authority_end(authority, tail);
    assert(rest.take(authority.len() as int) =~= authority);
    assert(rest.skip(authority.len() as int) =~= tail);
    assert("/"@ =~= seq!['/']);
    assert(seq!['/'] + Seq::<char>::empty() =~= seq!['/']);
    if tail.len() == 0 {
        assert(tail =~= Seq::<char>::empty());
    }
}

proof fn lemma_authority_end(authority: Seq<char>, tail: Seq<char>)
    requires
        forall|i: int|
            0 <= i < authority.len() ==> #[trigger] authority[i] != '/' && authority[i] != '?'
                && authority[i] != '#',
        tail.len() > 0 ==> tail[0] == '/' || tail[0] == '?' || tail[0] == '#',
    ensures
        authority_end(authority + tail) == authority.len(),
    decreases authority.len(),
{
    let s = authority + tail;
    if authority.len() > 0 {
        assert(s[0] == authority[0]);
        assert(s.skip(1) =~= authority.skip(1) + tail);
        assert forall|i: int| 0 <= i < authority.skip(1).len() implies #[trigger] authority.skip(
            1,
        )[i] != '/' && authority.skip(1)[i] != '?' && authority.skip(1)[i] != '#' by {
            assert(authority.skip(1)[i] == authority[i + 1]);
        }
        lemma_authority_end(authority.skip(1), tail);
    } else if tail.len() > 0 {
        assert(s[0] == tail[0]);
    }
}

/// Of the headers of a request every line is kept but those called Connection, in order and
/// unchanged.
pub proof fn law_headers_are_kept(lines: Seq<Seq<char>>)
    ensures
        headers_of(lines) matches Some((authorization, kept)) ==> kept == lines.filter(
            |line: Seq<char>|
                !(text::cut(line, ':') matches Some((name, _)) && text::same_but_case(
                    name,
                    "connection"@,
                )),
        ),
    decreases lines.len(),
{
    reveal(Seq::filter);
    if lines.len() > 0 {
        law_headers_are_kept(lines.drop_last());
    }
}

/// The authorization of a request is the value of its one header of that name, without the white
/// space around it. Headers with two of them, or with a line that has no colon, are none.
pub proof fn law_one_authorization(lines: Seq<Seq<char>>)
    ensures
        headers_of(lines) is None <==> (exists|i: int|
            0 <= i < lines.len() && !(#[trigger] lines[i]).contains(':')) || (exists|i: int, j: int|
            0 <= i < j < lines.len() && authorizes(#[trigger] lines[i]) && authorizes(
                #[trigger] lines[j],
            )),
        headers_of(lines) matches Some((None, _)) ==> forall|i: int|
            0 <= i < lines.len() ==> !authorizes(#[trigger] lines[i]),
        headers_of(lines) matches Some((Some(value), _)) ==> exists|i: int|
            0 <= i < lines.len() && authorizes(#[trigger] lines[i]) && value == text::trimmed(
                (text::cut(lines[i], ':')->0).1,
            ),
    decreases lines.len(),
{
    if lines.len() > 0 {
        let before = lines.drop_last();
        let n = before.len() as int;
        law_one_authorization(before);
        assert(forall|i: int| 0 <= i < n ==> #[trigger] before[i] == lines[i]);
        text::lemma_position_bounds(lines.last(), ':');
        let colon = text::position(lines.last(), ':');
        if colon < lines.last().len() {
            assert(lines.last().contains(':'));
        } else if lines.last().contains(':') {
            let i = choose|i: int| 0 <= i < lines.last().len() && lines.last()[i] == ':';
            assert(lines.last()[i] == ':');
        }
        assert(lines[n] == lines.last());
        if headers_of(before) is None {
            if exists|i: int| 0 <= i < before.len() && !(#[trigger] before[i]).contains(':') {
                let i = choose|i: int|
                    0 <= i < before.len() && !(#[trigger] before[i]).contains(':');
                assert(!lines[i].contains(':'));
            } else {
                let (i, j) = choose|i: int, j: int|
                    0 <= i < j < before.len() && authorizes(#[trigger] before[i]) && authorizes(
                        #[trigger] before[j],
                    );
                assert(authorizes(lines[i]) && authorizes(lines[j]));
            }
        } else {
            assert(forall|i: int| 0 <= i < n ==> (#[trigger] lines[i]).contains(':')) by {
                assert forall|i: int| 0 <= i < n implies (#[trigger] lines[i]).contains(':') by {
                    assert(before[i].contains(':'));
                }
            }
            assert forall|i: int, j: int| 0 <= i < j < n implies !(authorizes(#[trigger] lines[i])
                && authorizes(#[trigger] lines[j])) by {
                assert(!(authorizes(before[i]) && authorizes(before[j])));
            }
            match (headers_of(before)->0).0 {
                Some(value) => {
                    let i = choose|i: int|
                        0 <= i < before.len() && authorizes(#[trigger] before[i]) && value
                            == text::trimmed((text::cut(before[i], ':')->0).1);
                    assert(authorizes(lines[i]));
                    if authorizes(lines.last()) {
                        assert(authorizes(lines[i]) && authorizes(lines[n]));
                    }
                },
                None => {
                    assert forall|i: int| 0 <= i < n implies !authorizes(#[trigger] lines[i]) by {
                        assert(!authorizes(before[i]));
                    }
                },
            }
        }
    }
}

/// Whether a header line is called Proxy-Authorization, in any case.
pub open spec fn authorizes(line: Seq<char>) -> bool {
    text::cut(line, ':') matches Some((name, _)) && text::same_but_case(
        name,
        "proxy-authorization"@,
    )
}

/// A request line of three words, the last HTTP/1.1, and the headers behind it are read as what
/// they say: CONNECT asks for a tunnel to the second word, and every other method for the
/// absolute address that the second word is. The target is then sent the method, the path,
/// HTTP/1.1, the headers that are kept, and that the connection is closed.
pub proof fn law_request_is_understood(method: Seq<char>, uri: Seq<char>, behind: Seq<char>)
    requires
        method.len() > 0,
        uri.len() > 0,
        forall|i: int| 0 <= i < method.len() ==> !text::is_white(#[trigger] method[i]),
        forall|i: int| 0 <= i < uri.len() ==> !text::is_white(#[trigger] uri[i]),
    ensures
        ({
            let outcome = request_of(
                method + seq![' '] + uri + seq![' '] + "HTTP/1.1"@ + "\r\n"@ + behind,
            );
            match headers_of(text::pieces_by(behind, "\r\n"@)) {
                None => outcome is None,
                Some((authorization, kept)) => if text::same_but_case(method, "CONNECT"@) {
                    outcome == if socks5::target_bytes(uri) is Ok {
                        Some((RequestView::Connect { target: uri }, authorization))
                    } else {
                        None
                    }
                } else {
                    match absolute_of(uri) {
                        None => outcome is None,
                        Some((target, path)) => outcome == Some(
                            (
                                RequestView::Absolute {
                                    target,
                                    outbound: encode_utf8(
                                        method + " "@ + path + " HTTP/1.1\r\n"@ + lines_text(kept)
                                            + "Connection: close\r\n\r\n"@,
                                    ),
                                },
                                authorization,
                            ),
                        ),
                    }
                },
            }
        }),
{
    reveal_strlit("HTTP/1.1");
    let version = "HTTP/1.1"@;
    assert(version.len() == 8);
    let line = method + seq![' '] + uri + seq![' '] + version;
    assert forall|i: int| 0 <= i < version.len() implies !text::is_white(#[trigger] version[i]) by {
    }
    text::law_words(version, ' ', Seq::empty());
    let rest = uri + seq![' '] + version;
    text::law_words(uri, ' ', version);
    text::law_words(method, ' ', rest);
    assert(line =~= method + seq![' '] + rest);
    assert(seq![method] + (seq![uri] + seq![version]) =~= seq![method, uri, version]);
    assert(text::words(line) == seq![method, uri, version]);
    assert(!line.contains('\n')) by {
        if line.contains('\n') {
            let i = choose|i: int| 0 <= i < line.len() && line[i] == '\n';
            assert(text::is_white('\n'));
            let m = method.len() as int;
            let u = uri.len() as int;
            if i < m {
                assert(method[i] == '\n');
            } else if m + 1 <= i < m + 1 + u {
                assert(uri[i - m - 1] == '\n');
            } else if i >= m + u + 2 {
                assert(version[i - m - u - 2] == '\n');
            }
        }
    }
    text::law_head_lines(line, behind);
    let lines = text::pieces_by(line + "\r\n"@ + behind, "\r\n"@);
    assert(lines[0] == line);
    assert(lines.skip(1) =~= text::pieces_by(behind, "\r\n"@));
}

/// Header lines are written one after another, each with its line end.
pub proof fn law_lines_are_written_in_order(a: Seq<Seq<char>>, b: Seq<Seq<char>>, line: Seq<char>)
    ensures
        lines_text(a + b) == lines_text(a) + lines_text(b),
        lines_text(seq![line]) == line + "\r\n"@,
        lines_text(Seq::<Seq<char>>::empty()) == Seq::<char>::empty(),
    decreases b.len(),
{
    assert(seq![line].drop_last() =~= Seq::<Seq<char>>::empty());
    assert(lines_text(Seq::<Seq<char>>::empty()) =~= Seq::<char>::empty());
    assert(lines_text(seq![line]) =~= line + "\r\n"@);
    if b.len() > 0 {
        law_lines_are_written_in_order(a, b.drop_last(), line);
        assert((a + b).drop_last() =~= a + b.drop_last());
        assert((a + b).last() == b.last());
        assert(lines_text(a + b) =~= lines_text(a) + lines_text(b));
    } else {
        assert(a + b =~= a);
        assert(lines_text(a) + lines_text(b) =~= lines_text(a));
    }
}

/// While the blank line has not come and there is room for it, the client is read on; a header of
/// more than 8192 bytes closes the connection without an answer. Neither is counted.
pub proof fn law_unfinished_headers(
    b: Seq<u8>,
    user: Option<Seq<char>>,
    password: Option<Seq<char>>,
    limit_reached: bool,
)
    ensures
        (forall|j: int|
            0 <= j <= b.len() - 4 ==> #[trigger] b.subrange(j, j + 4) != seq![13u8, 10, 13, 10])
            ==> http_outcome(b, user, password, limit_reached) == if b.len() <= 8192 {
            (HttpStepView::Read, Report::Nothing)
        } else {
            (HttpStepView::Close, Report::Nothing)
        },
        is_header(b) && b.len() > 8192 ==> http_outcome(b, user, password, limit_reached) == (
            HttpStepView::Close,
            Report::Nothing,
        ),
{
    if forall|j: int|
        0 <= j <= b.len() - 4 ==> #[trigger] b.subrange(j, j + 4) != seq![13u8, 10, 13, 10] {
        law_header_is_waited_for(b);
    }
    if is_header(b) {
        law_header_ends_at_the_blank_line(b, Seq::empty());
        assert(b + Seq::<u8>::empty() =~= b);
    }
}

} // verus!
