//! Requests to the dashboard: reading them from a connection, and what stands in them.
use vstd::prelude::*;
use vstd::slice::{slice_subrange, slice_to_vec};
use vstd::utf8::{decode_utf8, valid_utf8};

use crate::address_text;
use crate::http_proxy::{blank_line, find_blank_line};
use crate::net::IpAddr;
use crate::progress::Progress;
use crate::socks5;
use crate::socks5::client::string_option;
use crate::text;

verus! {

/// The longest request that is taken.
pub const MAX_API_REQUEST_BYTES: usize = 65_536;

/// Why a request is not taken.
#[derive(Clone, Copy, Debug, PartialEq, Eq, Structural)]
pub enum ApiRequestError {
    /// It is malformed or was cut off.
    Incomplete,
    TooLarge,
}

// ---------------------------------------------------------------------------------------------
// Reading
// ---------------------------------------------------------------------------------------------

/// The value of the first line that says how long the body is.
pub open spec fn length_line(lines: Seq<Seq<char>>) -> Option<Seq<char>>
    decreases lines.len(),
{
    if lines.len() == 0 {
        None
    } else {
        match text::cut(lines[0], ':') {
            Some((name, value)) => if text::same_but_case(name, "content-length"@) {
                Some(text::trimmed(value))
            } else {
                length_line(lines.skip(1))
            },
            None => length_line(lines.skip(1)),
        }
    }
}

/// How long the body of a request is, by its header: nothing where no line says so.
pub open spec fn body_length(header: Seq<u8>) -> Result<nat, ApiRequestError> {
    if !valid_utf8(header) {
        Err(ApiRequestError::Incomplete)
    } else {
        match length_line(text::text_lines(decode_utf8(header))) {
            Some(value) => match text::number_up_to(value, usize::MAX as nat) {
                Some(n) => Ok(n),
                None => Err(ApiRequestError::Incomplete),
            },
            None => Ok(0),
        }
    }
}

/// How long the body of a request is, by its header.
pub fn content_length(header: &[u8]) -> (res: Result<usize, ApiRequestError>)
    ensures
        match res {
            Ok(n) => body_length(header@) == Ok::<nat, ApiRequestError>(n as nat),
            Err(error) => body_length(header@) == Err::<nat, ApiRequestError>(error),
        },
{
    let decoded = match text::string_from_utf8(slice_to_vec(header)) {
        Ok(decoded) => decoded,
        Err(_) => {
            return Err(ApiRequestError::Incomplete);
        },
    };
    let wanted = text::to_chars("content-length");
    let chars = text::to_chars(decoded.as_str());
    let lines = text::lines(chars.as_slice());
    let ghost all = text::contents(lines@);
    let n: usize = lines.len();
    let mut i: usize = 0;
    assert(all.skip(0) =~= all);
    while i < n
        invariant
            i <= n,
            n == lines@.len(),
            valid_utf8(header@),
            decoded@ == decode_utf8(header@),
            wanted@ == "content-length"@,
            all == text::contents(lines@),
            all == text::text_lines(decode_utf8(header@)),
            length_line(all.skip(i as int)) == length_line(all),
        decreases n - i,
    {
        proof {
            assert(all.skip(i as int)[0] == lines@[i as int]@);
            assert(all.skip(i as int).skip(1) =~= all.skip(i + 1));
        }
        if let Some((name, value)) = text::split_once(lines[i], ':') {
            if text::eq_ignore_ascii_case(name, wanted.as_slice()) {
                return match text::parse_number(text::trim(value), usize::MAX as u64) {
                    Some(length) => Ok(length as usize),
                    None => Err(ApiRequestError::Incomplete),
                };
            }
        }
        i += 1;
    }
    Ok(0)
}

/// The request that received bytes are, as text. It must keep its limit, as must what came with
/// it.
pub open spec fn api_progress(b: Seq<u8>) -> Progress<Seq<char>, ApiRequestError> {
    if b.len() > MAX_API_REQUEST_BYTES {
        Progress::Failed(ApiRequestError::TooLarge)
    } else {
        match text::seek(b, blank_line()) {
            None => Progress::More(1),
            Some(i) => match body_length(b.take(i + 4)) {
                Err(error) => Progress::Failed(error),
                Ok(n) => {
                    let total = i + 4 + n;
                    if total > MAX_API_REQUEST_BYTES {
                        Progress::Failed(ApiRequestError::TooLarge)
                    } else if b.len() < total {
                        Progress::More((total - b.len()) as usize)
                    } else if valid_utf8(b.take(total)) {
                        Progress::Done { value: decode_utf8(b.take(total)), used: total as usize }
                    } else {
                        Progress::Failed(ApiRequestError::Incomplete)
                    }
                },
            },
        }
    }
}

/// The text inside a reading result.
pub open spec fn api_view(p: Progress<String, ApiRequestError>) -> Progress<
    Seq<char>,
    ApiRequestError,
> {
    match p {
        Progress::More(n) => Progress::More(n),
        Progress::Done { value, used } => Progress::Done { value: value@, used },
        Progress::Failed(error) => Progress::Failed(error),
    }
}

/// The request that received bytes are, as text.
pub fn read_api_request(b: &[u8]) -> (res: Progress<String, ApiRequestError>)
    ensures
        api_view(res) == api_progress(b@),
{
    let len: usize = b.len();
    if len > MAX_API_REQUEST_BYTES {
        return Progress::Failed(ApiRequestError::TooLarge);
    }
    match find_blank_line(b) {
        None => Progress::More(1),
        Some(i) => {
            let header = slice_subrange(b, 0, i + 4);
            assert(header@ =~= b@.take(i + 4));
            match content_length(header) {
                Err(error) => Progress::Failed(error),
                Ok(n) => {
                    if n > MAX_API_REQUEST_BYTES || i + 4 + n > MAX_API_REQUEST_BYTES {
                        return Progress::Failed(ApiRequestError::TooLarge);
                    }
                    let total: usize = i + 4 + n;
                    if len < total {
                        return Progress::More(total - len);
                    }
                    let whole = slice_subrange(b, 0, total);
                    assert(whole@ =~= b@.take(total as int));
                    match text::string_from_utf8(slice_to_vec(whole)) {
                        Ok(request) => Progress::Done { value: request, used: total },
                        Err(_) => Progress::Failed(ApiRequestError::Incomplete),
                    }
                },
            }
        },
    }
}

// ---------------------------------------------------------------------------------------------
// Header lines
// ---------------------------------------------------------------------------------------------

/// What a header line says that the dashboard looks at.
pub enum HeaderLine {
    Host(Seq<char>),
    Password(Seq<char>),
    Cookie(Seq<char>),
    Https(bool),
    ClientIp(Seq<char>),
    ForwardedFor(Seq<char>),
    Other,
}

/// Whether a line starts with a name, whatever its case.
pub open spec fn has_name(line: Seq<char>, name: Seq<char>) -> bool {
    line.len() >= name.len() && text::same_but_case(line.take(name.len() as int), name)
}

/// What a line says behind a name.
pub open spec fn value_behind(line: Seq<char>, name: Seq<char>) -> Seq<char> {
    text::trimmed(line.skip(name.len() as int))
}

/// Whether a line starts with the cookie's name in which the small letter `k` is written as a
/// Kelvin sign, whose lower case it is too. As that sign is longer in UTF-8, what is taken for the
/// value then starts two characters earlier.
pub open spec fn has_kelvin_cookie(line: Seq<char>) -> bool {
    &&& line.len() >= 7
    &&& line[3] == '\u{212a}'
    &&& text::same_but_case(line.take(3), "coo"@)
    &&& text::same_but_case(line.subrange(4, 7), "ie:"@)
}

/// What a header line says.
pub open spec fn header_line(line: Seq<char>) -> HeaderLine {
    if has_name(line, "host:"@) {
        let host = value_behind(line, "host:"@);
        HeaderLine::Host(host.take(text::position(host, ':')))
    } else if has_name(line, "x-server-password:"@) {
        HeaderLine::Password(value_behind(line, "x-server-password:"@))
    } else if has_name(line, "cookie:"@) {
        HeaderLine::Cookie(value_behind(line, "cookie:"@))
    } else if has_kelvin_cookie(line) {
        HeaderLine::Cookie(text::trimmed(line.skip(5)))
    } else if has_name(line, "x-forwarded-proto:"@) {
        HeaderLine::Https(
            text::same_but_case(value_behind(line, "x-forwarded-proto:"@), "https"@),
        )
    } else if has_name(line, "cf-connecting-ip:"@) {
        HeaderLine::ClientIp(value_behind(line, "cf-connecting-ip:"@))
    } else if has_name(line, "x-forwarded-for:"@) {
        HeaderLine::ForwardedFor(value_behind(line, "x-forwarded-for:"@))
    } else {
        HeaderLine::Other
    }
}

/// What the header of a request says that the dashboard looks at.
#[derive(Debug)]
pub struct ApiHeaders {
    pub host: String,
    pub password: String,
    pub cookie: String,
    pub https: bool,
    pub cf_ip: Option<String>,
    pub forwarded_for: Option<String>,
}

/// `ApiHeaders`, with texts by their characters.
#[verifier::ext_equal]
pub struct ApiHeadersView {
    pub host: Seq<char>,
    pub password: Seq<char>,
    pub cookie: Seq<char>,
    pub https: bool,
    pub cf_ip: Option<Seq<char>>,
    pub forwarded_for: Option<Seq<char>>,
}

impl ApiHeaders {
    /// The header by its contents.
    pub open spec fn view(&self) -> ApiHeadersView {
        ApiHeadersView {
            host: self.host@,
            password: self.password@,
            cookie: self.cookie@,
            https: self.https,
            cf_ip: string_option(self.cf_ip),
            forwarded_for: string_option(self.forwarded_for),
        }
    }
}

/// A header that says nothing.
pub open spec fn no_headers() -> ApiHeadersView {
    ApiHeadersView {
        host: seq![],
        password: seq![],
        cookie: seq![],
        https: false,
        cf_ip: None,
        forwarded_for: None,
    }
}

/// What header lines say; of two lines of one kind the later counts.
pub open spec fn headers_said(lines: Seq<Seq<char>>) -> ApiHeadersView
    decreases lines.len(),
{
    if lines.len() == 0 {
        no_headers()
    } else {
        let before = headers_said(lines.drop_last());
        match header_line(lines.last()) {
            HeaderLine::Host(host) => ApiHeadersView { host, ..before },
            HeaderLine::Password(password) => ApiHeadersView { password, ..before },
            HeaderLine::Cookie(cookie) => ApiHeadersView { cookie, ..before },
            HeaderLine::Https(https) => ApiHeadersView { https, ..before },
            HeaderLine::ClientIp(ip) => ApiHeadersView { cf_ip: Some(ip), ..before },
            HeaderLine::ForwardedFor(value) => ApiHeadersView {
                forwarded_for: Some(value),
                ..before
            },
            HeaderLine::Other => before,
        }
    }
}

/// What a line says behind a name, where it starts with it.
fn read_value(line: &[char], name: &str) -> (res: Option<String>)
    ensures
        match res {
            Some(value) => has_name(line@, name@) && value@ == value_behind(line@, name@),
            None => !has_name(line@, name@),
        },
{
    let wanted = text::to_chars(name);
    let n: usize = wanted.len();
    let len: usize = line.len();
    if len < n {
        return None;
    }
    let start = slice_subrange(line, 0, n);
    let rest = slice_subrange(line, n, len);
    proof {
        assert(start@ =~= line@.take(n as int));
        assert(rest@ =~= line@.skip(n as int));
    }
    if text::eq_ignore_ascii_case(start, wanted.as_slice()) {
        Some(text::from_chars(text::trim(rest)))
    } else {
        None
    }
}

/// The cookie of a line that names it with a Kelvin sign.
fn read_kelvin_cookie(line: &[char]) -> (res: Option<String>)
    ensures
        match res {
            Some(value) => has_kelvin_cookie(line@) && value@ == text::trimmed(line@.skip(5)),
            None => !has_kelvin_cookie(line@),
        },
{
    let len: usize = line.len();
    if len < 7 || line[3] != '\u{212a}' {
        return None;
    }
    let first = text::to_chars("coo");
    let last = text::to_chars("ie:");
    let start = slice_subrange(line, 0, 3);
    let end = slice_subrange(line, 4, 7);
    let rest = slice_subrange(line, 5, len);
    proof {
        assert(start@ =~= line@.take(3));
        assert(rest@ =~= line@.skip(5));
    }
    if text::eq_ignore_ascii_case(start, first.as_slice()) && text::eq_ignore_ascii_case(
        end,
        last.as_slice(),
    ) {
        Some(text::from_chars(text::trim(rest)))
    } else {
        None
    }
}

/// Takes a header line.
fn take_line(headers: &mut ApiHeaders, line: &[char])
    ensures
        forall|lines: Seq<Seq<char>>|
            lines.len() > 0 && lines.last() == line@ && #[trigger] headers_said(lines.drop_last())
                == old(headers)@ ==> headers_said(lines) == final(headers)@,
{
    if let Some(value) = read_value(line, "host:") {
        let chars = text::to_chars(value.as_str());
        let end: usize = text::find(chars.as_slice(), ':');
        let host = slice_subrange(chars.as_slice(), 0, end);
        assert(host@ =~= value@.take(end as int));
        headers.host = text::from_chars(host);
    } else if let Some(value) = read_value(line, "x-server-password:") {
        headers.password = value;
    } else if let Some(value) = read_value(line, "cookie:") {
        headers.cookie = value;
    } else if let Some(value) = read_kelvin_cookie(line) {
        headers.cookie = value;
    } else if let Some(value) = read_value(line, "x-forwarded-proto:") {
        let chars = text::to_chars(value.as_str());
        let https = text::to_chars("https");
        headers.https = text::eq_ignore_ascii_case(chars.as_slice(), https.as_slice());
    } else if let Some(value) = read_value(line, "cf-connecting-ip:") {
        headers.cf_ip = Some(value);
    } else if let Some(value) = read_value(line, "x-forwarded-for:") {
        headers.forwarded_for = Some(value);
    }
}

/// What header lines say.
fn read_headers(lines: &[&[char]]) -> (res: ApiHeaders)
    ensures
        res@ == headers_said(text::contents(lines@)),
{
    let ghost all = text::contents(lines@);
    let mut res = ApiHeaders {
        host: String::new(),
        password: String::new(),
        cookie: String::new(),
        https: false,
        cf_ip: None,
        forwarded_for: None,
    };
    let n: usize = lines.len();
    let mut i: usize = 0;
    proof {
        assert(all.take(0) =~= seq![]);
        assert(res@ =~= no_headers());
    }
    while i < n
        invariant
            i <= n,
            n == lines@.len(),
            all == text::contents(lines@),
            res@ == headers_said(all.take(i as int)),
        decreases n - i,
    {
        proof {
            assert(all.take(i + 1).drop_last() =~= all.take(i as int));
            assert(all.take(i + 1).last() == lines@[i as int]@);
        }
        take_line(&mut res, lines[i]);
        i += 1;
    }
    assert(all.take(n as int) =~= all);
    res
}

// ---------------------------------------------------------------------------------------------
// The request
// ---------------------------------------------------------------------------------------------

/// A request to the dashboard.
#[derive(Debug)]
pub struct ApiRequest {
    pub method: String,
    pub base_path: String,
    pub query: String,
    pub headers: ApiHeaders,
    pub body: String,
}

/// `ApiRequest`, with texts by their characters.
#[verifier::ext_equal]
pub struct ApiRequestView {
    pub method: Seq<char>,
    pub base_path: Seq<char>,
    pub query: Seq<char>,
    pub headers: ApiHeadersView,
    pub body: Seq<char>,
}

impl ApiRequest {
    /// The request by its contents.
    pub open spec fn view(&self) -> ApiRequestView {
        ApiRequestView {
            method: self.method@,
            base_path: self.base_path@,
            query: self.query@,
            headers: self.headers@,
            body: self.body@,
        }
    }
}

/// A text without the zero characters around it.
pub open spec fn without_zeros(s: Seq<char>) -> Seq<char>
    decreases s.len(),
{
    if s.len() > 0 && s[0] == '\0' {
        without_zeros(s.skip(1))
    } else if s.len() > 0 && s.last() == '\0' {
        without_zeros(s.drop_last())
    } else {
        s
    }
}

/// The blank line as text.
pub open spec fn blank_text() -> Seq<char> {
    seq!['\r', '\n', '\r', '\n']
}

/// What a request's text says. Nothing where its first line has no method and path.
pub open spec fn request_said(request: Seq<char>) -> Option<ApiRequestView> {
    let (head, body) = match text::seek(request, blank_text()) {
        Some(i) => (request.take(i), request.skip(i + 4)),
        None => (request, seq![]),
    };
    let lines = text::text_lines(head);
    let parts = text::words(
        if lines.len() > 0 {
            lines[0]
        } else {
            seq![]
        },
    );
    if parts.len() < 2 {
        None
    } else {
        let path = parts[1];
        let mark = text::position(path, '?');
        Some(
            ApiRequestView {
                method: parts[0],
                base_path: path.take(mark),
                query: if mark < path.len() {
                    path.skip(mark + 1)
                } else {
                    seq![]
                },
                headers: headers_said(lines.skip(1)),
                body: without_zeros(body),
            },
        )
    }
}

/// A text without the zero characters around it.
fn trim_zeros<'a>(s: &'a [char]) -> (res: &'a [char])
    ensures
        res@ == without_zeros(s@),
{
    let mut start: usize = 0;
    let mut end: usize = s.len();
    assert(s@.subrange(0, end as int) =~= s@);
    while start < end && s[start] == '\0'
        invariant
            start <= end,
            end == s@.len(),
            without_zeros(s@.subrange(start as int, end as int)) == without_zeros(s@),
        decreases end - start,
    {
        assert(s@.subrange(start as int, end as int).skip(1) =~= s@.subrange(
            start + 1,
            end as int,
        ));
        start += 1;
    }
    while start < end && s[end - 1] == '\0'
        invariant
            start <= end <= s@.len(),
            start < end ==> s@[start as int] != '\0',
            without_zeros(s@.subrange(start as int, end as int)) == without_zeros(s@),
        decreases end,
    {
        proof {
            let part = s@.subrange(start as int, end as int);
            assert(part[0] == s@[start as int]);
            assert(part.drop_last() =~= s@.subrange(start as int, end - 1));
        }
        end -= 1;
    }
    slice_subrange(s, start, end)
}

/// What a request's text says.
pub fn parse_api_request(request: &str) -> (res: Option<ApiRequest>)
    ensures
        match res {
            Some(parsed) => request_said(request@) == Some(parsed@),
            None => request_said(request@) is None,
        },
{
    let chars = text::to_chars(request);
    let s = chars.as_slice();
    let len: usize = s.len();
    let blank: [char; 4] = ['\r', '\n', '\r', '\n'];
    let blank: &[char] = &blank;
    assert(blank@ =~= blank_text() && blank_text().len() == 4);
    let (head, body) = match text::find_chars(s, blank) {
        Some(i) => {
            let head = slice_subrange(s, 0, i);
            let body = slice_subrange(s, i + 4, len);
            proof {
                assert(head@ =~= s@.take(i as int));
                assert(body@ =~= s@.skip(i + 4));
            }
            (head, body)
        },
        None => {
            let body = slice_subrange(s, 0, 0);
            assert(body@ =~= seq![]);
            (s, body)
        },
    };
    let lines = text::lines(head);
    let ghost all = text::contents(lines@);
    assert(all == text::text_lines(head@));
    if lines.len() == 0 {
        proof {
            assert(text::trimmed_start(Seq::<char>::empty()).len() == 0);
            assert(text::words(Seq::<char>::empty()).len() == 0);
        }
        return None;
    }
    assert(all[0] == lines@[0]@);
    let parts = text::split_whitespace(lines[0]);
    let ghost all_parts = text::words(all[0]);
    assert(all_parts.len() == parts@.len());
    if parts.len() < 2 {
        return None;
    }
    assert(all_parts[0] == parts@[0]@ && all_parts[1] == parts@[1]@);
    let path = parts[1];
    let n: usize = path.len();
    let mark: usize = text::find(path, '?');
    let base = slice_subrange(path, 0, mark);
    assert(base@ =~= path@.take(mark as int));
    let query = if mark < n {
        let query = slice_subrange(path, mark + 1, n);
        assert(query@ =~= path@.skip(mark + 1));
        query
    } else {
        let query = slice_subrange(path, 0, 0);
        assert(query@ =~= seq![]);
        query
    };
    let others = slice_subrange(lines.as_slice(), 1, lines.len());
    assert(text::contents(others@) =~= all.skip(1));
    Some(
        ApiRequest {
            method: text::from_chars(parts[0]),
            base_path: text::from_chars(base),
            query: text::from_chars(query),
            headers: read_headers(others),
            body: text::from_chars(trim_zeros(body)),
        },
    )
}

// ---------------------------------------------------------------------------------------------
// The client's address
// ---------------------------------------------------------------------------------------------

/// Whether a proxy at an address may say whom it forwards for: it is on the server's own network.
pub open spec fn trusted_proxy(peer: IpAddr) -> bool {
    match peer {
        IpAddr::V4(ip) => ip.private() || ip.loopback(),
        IpAddr::V6(ip) => ip.loopback(),
    }
}

/// The address that a request is forwarded for, by its header: that of the first kind of line, or
/// the last address of the second, which the server's own proxy has added.
pub open spec fn forwarded_ip(cf_ip: Option<Seq<char>>, forwarded_for: Option<Seq<char>>) -> Option<
    IpAddr,
> {
    match cf_ip {
        Some(value) => address_text::ip_of(text::trimmed(value)),
        None => match forwarded_for {
            Some(value) => address_text::ip_of(
                text::trimmed(value.skip(text::last_position(value, ',') + 1)),
            ),
            None => None,
        },
    }
}

/// The address of a client for bans: the forwarded one where the peer may say so and it is an
/// address, and the peer's elsewhere.
pub open spec fn client_ip(
    peer: IpAddr,
    cf_ip: Option<Seq<char>>,
    forwarded_for: Option<Seq<char>>,
) -> IpAddr {
    match forwarded_ip(cf_ip, forwarded_for) {
        Some(ip) => if trusted_proxy(peer) {
            ip
        } else {
            peer
        },
        None => peer,
    }
}

/// Real client address for ban accounting. Forwarding headers are trusted only when the TCP peer
/// is private or loopback; a direct internet client cannot spoof them.
pub fn api_client_ip(peer: IpAddr, cf_ip: Option<&str>, forwarded_for: Option<&str>) -> (res:
    String)
    ensures
        res@ == address_text::ip_text(
            client_ip(peer, socks5::text_option(cf_ip), socks5::text_option(forwarded_for)),
        ),
{
    let trusted = match peer {
        IpAddr::V4(ip) => ip.is_private() || ip.is_loopback(),
        IpAddr::V6(ip) => ip.is_loopback(),
    };
    let forwarded: Option<IpAddr> = match cf_ip {
        Some(value) => {
            let chars = text::to_chars(value);
            address_text::parse_ip(text::trim(chars.as_slice()))
        },
        None => match forwarded_for {
            Some(value) => {
                let chars = text::to_chars(value);
                let s = chars.as_slice();
                let n: usize = s.len();
                let start: usize = match text::rfind(s, ',') {
                    Some(i) => i + 1,
                    None => 0,
                };
                let last = slice_subrange(s, start, n);
                proof {
                    text::lemma_last_position_bounds(s@, ',');
                    assert(last@ =~= s@.skip(text::last_position(s@, ',') + 1));
                }
                address_text::parse_ip(text::trim(last))
            },
            None => None,
        },
    };
    match forwarded {
        Some(ip) => {
            if trusted {
                ip.to_text()
            } else {
                peer.to_text()
            }
        },
        None => peer.to_text(),
    }
}

/// What a direct client from the internet says of itself does not change its address.
pub proof fn law_direct_clients_cannot_pose(
    peer: IpAddr,
    cf_ip: Option<Seq<char>>,
    forwarded_for: Option<Seq<char>>,
)
    requires
        !trusted_proxy(peer),
    ensures
        client_ip(peer, cf_ip, forwarded_for) == peer,
{
}

// ---------------------------------------------------------------------------------------------
// What a request says
// ---------------------------------------------------------------------------------------------

proof fn lemma_not_named(line: Seq<char>, name: Seq<char>, i: int)
    requires
        0 <= i < name.len(),
        i < line.len() ==> text::small(line[i]) != text::small(name[i]),
    ensures
        !has_name(line, name),
{
    if has_name(line, name) {
        assert(line.take(name.len() as int)[i] == line[i]);
    }
}

/// Each header of a request that is looked at is known by its name in any case, and its value is
/// what stands behind the name without the white space around it; of the host the port is left
/// out.
pub proof fn law_headers_by_name(name: Seq<char>, value: Seq<char>)
    ensures
        text::same_but_case(name, "host:"@) ==> (header_line(name + value) matches HeaderLine::Host(
            host,
        ) && host == text::trimmed(value).take(text::position(text::trimmed(value), ':'))),
        text::same_but_case(name, "x-server-password:"@) ==> header_line(name + value)
            == HeaderLine::Password(text::trimmed(value)),
        text::same_but_case(name, "cookie:"@) ==> header_line(name + value) == HeaderLine::Cookie(
            text::trimmed(value),
        ),
        text::same_but_case(name, "x-forwarded-proto:"@) ==> header_line(name + value)
            == HeaderLine::Https(text::same_but_case(text::trimmed(value), "https"@)),
        text::same_but_case(name, "cf-connecting-ip:"@) ==> header_line(name + value)
            == HeaderLine::ClientIp(text::trimmed(value)),
        text::same_but_case(name, "x-forwarded-for:"@) ==> header_line(name + value)
            == HeaderLine::ForwardedFor(text::trimmed(value)),
{
    reveal_strlit("host:");
    reveal_strlit("x-server-password:");
    reveal_strlit("cookie:");
    reveal_strlit("x-forwarded-proto:");
    reveal_strlit("cf-connecting-ip:");
    reveal_strlit("x-forwarded-for:");
    reveal_strlit("coo");
    assert("host:"@.len() == 5);
    assert("x-server-password:"@.len() == 18);
    assert("cookie:"@.len() == 7);
    assert("x-forwarded-proto:"@.len() == 18);
    assert("cf-connecting-ip:"@.len() == 17);
    assert("x-forwarded-for:"@.len() == 16);
    assert("coo"@.len() == 3);
    let line = name + value;
    assert(line.take(name.len() as int) =~= name);
    assert(line.skip(name.len() as int) =~= value);
    if text::same_but_case(name, "host:"@) {
    } else if text::same_but_case(name, "x-server-password:"@) {
        assert(text::small(name[0]) == 'x');
        assert(text::small(name[2]) == 's');
        lemma_not_named(line, "host:"@, 0);
    } else if text::same_but_case(name, "cookie:"@) {
        assert(text::small(name[0]) == 'c');
        lemma_not_named(line, "host:"@, 0);
        lemma_not_named(line, "x-server-password:"@, 0);
    } else if text::same_but_case(name, "x-forwarded-proto:"@) {
        assert(text::small(name[0]) == 'x');
        assert(text::small(name[2]) == 'f');
        lemma_not_named(line, "host:"@, 0);
        lemma_not_named(line, "x-server-password:"@, 2);
        lemma_not_named(line, "cookie:"@, 0);
        assert(!has_kelvin_cookie(line)) by {
            assert(line.take(3)[0] == line[0]);
        }
    } else if text::same_but_case(name, "cf-connecting-ip:"@) {
        assert(text::small(name[0]) == 'c');
        assert(text::small(name[1]) == 'f');
        lemma_not_named(line, "host:"@, 0);
        lemma_not_named(line, "x-server-password:"@, 0);
        lemma_not_named(line, "cookie:"@, 1);
        assert(!has_kelvin_cookie(line)) by {
            assert(line.take(3)[1] == line[1]);
        }
        lemma_not_named(line, "x-forwarded-proto:"@, 0);
    } else if text::same_but_case(name, "x-forwarded-for:"@) {
        assert(text::small(name[0]) == 'x');
        assert(text::small(name[2]) == 'f');
        assert(text::small(name[12]) == 'f');
        lemma_not_named(line, "host:"@, 0);
        lemma_not_named(line, "x-server-password:"@, 2);
        lemma_not_named(line, "cookie:"@, 0);
        assert(!has_kelvin_cookie(line)) by {
            assert(line.take(3)[0] == line[0]);
        }
        lemma_not_named(line, "x-forwarded-proto:"@, 12);
        lemma_not_named(line, "cf-connecting-ip:"@, 0);
    }
}

/// A header changes what it says and nothing else; the last one of a name counts, and without any
/// header nothing is said.
pub proof fn law_last_header_counts(lines: Seq<Seq<char>>, line: Seq<char>)
    ensures
        ({
            let before = headers_said(lines);
            let after = headers_said(lines.push(line));
            let said = header_line(line);
            &&& after.host == if said is Host {
                said->Host_0
            } else {
                before.host
            }
            &&& after.password == if said is Password {
                said->Password_0
            } else {
                before.password
            }
            &&& after.cookie == if said is Cookie {
                said->Cookie_0
            } else {
                before.cookie
            }
            &&& after.https == if said is Https {
                said->Https_0
            } else {
                before.https
            }
            &&& after.cf_ip == if said is ClientIp {
                Some(said->ClientIp_0)
            } else {
                before.cf_ip
            }
            &&& after.forwarded_for == if said is ForwardedFor {
                Some(said->ForwardedFor_0)
            } else {
                before.forwarded_for
            }
        }),
        ({
            let none = headers_said(Seq::<Seq<char>>::empty());
            none.host.len() == 0 && none.password.len() == 0 && none.cookie.len() == 0
                && !none.https && none.cf_ip is None && none.forwarded_for is None
        }),
{
    assert(lines.push(line).drop_last() =~= lines);
}

/// A path with its query, as a request line has them.
pub open spec fn asked_path(path: Seq<char>, query: Option<Seq<char>>) -> Seq<char> {
    match query {
        Some(query) => path + seq!['?'] + query,
        None => path,
    }
}

/// A text that no blank line begins in, with the blank line behind it and what follows.
pub open spec fn with_blank_line(head: Seq<char>, body: Seq<char>) -> Seq<char> {
    head + seq!['\r', '\n', '\r', '\n'] + body
}

/// Whether no blank line begins in the head of a request.
pub open spec fn is_head(head: Seq<char>, body: Seq<char>) -> bool {
    forall|j: int|
        0 <= j < head.len() ==> #[trigger] with_blank_line(head, body).subrange(j, j + 4) != seq![
            '\r',
            '\n',
            '\r',
            '\n',
        ]
}

proof fn lemma_head_and_body(head: Seq<char>, body: Seq<char>)
    requires
        is_head(head, body),
    ensures
        text::seek(with_blank_line(head, body), blank_text()) == Some(head.len() as int),
        with_blank_line(head, body).take(head.len() as int) == head,
        with_blank_line(head, body).skip(head.len() as int + 4) == body,
{
    let request = with_blank_line(head, body);
    let blank = blank_text();
    let n = head.len() as int;
    assert(request.subrange(n, n + 4) =~= blank);
    assert(text::stands_at(request, blank, n));
    assert forall|j: int| 0 <= j < n implies !text::stands_at(request, blank, j) by {
        assert(request.subrange(j, j + 4) != blank);
    }
    text::lemma_seek_is(request, blank, n);
    assert(request.take(n) =~= head);
    assert(request.skip(n + 4) =~= body);
}

proof fn lemma_request_line(method: Seq<char>, asked: Seq<char>, version: Seq<char>)
    requires
        method.len() > 0,
        asked.len() > 0,
        forall|i: int| 0 <= i < method.len() ==> !text::is_white(#[trigger] method[i]),
        forall|i: int| 0 <= i < asked.len() ==> !text::is_white(#[trigger] asked[i]),
        !version.contains('\n'),
    ensures
        ({
            let line = method + seq![' '] + asked + seq![' '] + version;
            &&& !line.contains('\n')
            &&& text::words(line).len() >= 2
            &&& text::words(line)[0] == method
            &&& text::words(line)[1] == asked
        }),
{
    let line = method + seq![' '] + asked + seq![' '] + version;
    assert(text::is_white('\n'));
    if line.contains('\n') {
        let i = choose|i: int| 0 <= i < line.len() && line[i] == '\n';
        let m = method.len() as int;
        let a = asked.len() as int;
        if i < m {
            assert(method[i] == '\n');
        } else if m + 1 <= i < m + 1 + a {
            assert(asked[i - m - 1] == '\n');
        } else if i >= m + a + 2 {
            assert(version[i - m - a - 2] == '\n');
            assert(version.contains('\n'));
        }
    }
    text::law_words(asked, ' ', version);
    text::law_words(method, ' ', asked + seq![' '] + version);
    assert(line =~= method + seq![' '] + (asked + seq![' '] + version));
}

/// A request is read as what it says: its method and its path are the first two words of its
/// first line, the query is what stands behind the first question mark of the path, the headers
/// are its other lines, and the body is what stands behind the blank line.
pub proof fn law_request_is_read(
    method: Seq<char>,
    path: Seq<char>,
    query: Option<Seq<char>>,
    version: Seq<char>,
    headers: Seq<char>,
    body: Seq<char>,
)
    requires
        method.len() > 0,
        path.len() > 0,
        forall|i: int| 0 <= i < method.len() ==> !text::is_white(#[trigger] method[i]),
        forall|i: int|
            0 <= i < asked_path(path, query).len() ==> !text::is_white(
                #[trigger] asked_path(path, query)[i],
            ),
        !path.contains('?'),
        !version.contains('\n'),
        version.len() > 0 && version.last() != '\r',
        is_head(
            method + seq![' '] + asked_path(path, query) + seq![' '] + version + seq!['\r', '\n']
                + headers,
            body,
        ),
        body.len() > 0 ==> body[0] != '\0' && body.last() != '\0',
    ensures
        request_said(
            with_blank_line(
                method + seq![' '] + asked_path(path, query) + seq![' '] + version + seq![
                    '\r',
                    '\n',
                ] + headers,
                body,
            ),
        ) matches Some(said) && said.method == method && said.base_path == path && said.query
            == match query {
            Some(query) => query,
            None => Seq::<char>::empty(),
        } && said.headers == headers_said(text::text_lines(headers)) && said.body == body,
{
    let asked = asked_path(path, query);
    let line = method + seq![' '] + asked + seq![' '] + version;
    let head = line + seq!['\r', '\n'] + headers;
    lemma_head_and_body(head, body);
    lemma_request_line(method, asked, version);
    assert(line.last() == version.last());
    text::law_lines(line, headers);
    let lines = text::text_lines(head);
    assert(lines[0] == line);
    assert(lines.skip(1) =~= text::text_lines(headers));
    assert(text::position(asked, '?') == path.len() && asked.take(path.len() as int) == path) by {
        text::lemma_position_bounds(asked, '?');
        match query {
            Some(query) => {
                text::law_cut(path, '?', query);
                assert(asked.take(path.len() as int) =~= path);
            },
            None => {
                text::law_cut(path, '?', Seq::empty());
                assert(asked.take(path.len() as int) =~= path);
            },
        }
    }
    match query {
        Some(query) => {
            assert(asked.skip(path.len() as int + 1) =~= query);
        },
        None => {},
    }
    assert(without_zeros(body) == body);
}

/// A request is whole once its header and as many bytes as its header names have come, and no
/// more is waited for than is missing; it may have 65536 bytes in all.
pub proof fn law_request_is_whole(h: Seq<u8>, body: Seq<u8>, k: int)
    requires
        crate::http_proxy::is_header(h),
        body_length(h) == Ok::<nat, ApiRequestError>(body.len()),
        h.len() <= k <= h.len() + body.len(),
    ensures
        ({
            let b = h + body;
            &&& b.len() > 65536 ==> api_progress(b) == (Progress::<
                Seq<char>,
                ApiRequestError,
            >::Failed(ApiRequestError::TooLarge)) && api_progress(b.take(k)) == (Progress::<
                Seq<char>,
                ApiRequestError,
            >::Failed(ApiRequestError::TooLarge))
            &&& b.len() <= 65536 && k < b.len() ==> api_progress(b.take(k)) == (Progress::<
                Seq<char>,
                ApiRequestError,
            >::More((b.len() - k) as usize))
            &&& b.len() <= 65536 && valid_utf8(b) ==> api_progress(b) == (Progress::<
                Seq<char>,
                ApiRequestError,
            >::Done { value: decode_utf8(b), used: b.len() as usize })
            &&& b.len() <= 65536 && !valid_utf8(b) ==> api_progress(b) == (Progress::<
                Seq<char>,
                ApiRequestError,
            >::Failed(ApiRequestError::Incomplete))
        }),
{
    let b = h + body;
    let c = b.take(k);
    let end = seq![13u8, 10, 13, 10];
    let n = h.len() - 4;
    assert(b.subrange(n, n + 4) =~= h.skip(n));
    assert(c.subrange(n, n + 4) =~= h.skip(n));
    assert(text::stands_at(b, end, n) && text::stands_at(c, end, n));
    assert forall|j: int| 0 <= j < n implies !text::stands_at(b, end, j) && !text::stands_at(
        c,
        end,
        j,
    ) by {
        assert(b.subrange(j, j + 4) =~= h.subrange(j, j + 4));
        assert(c.subrange(j, j + 4) =~= h.subrange(j, j + 4));
    }
    text::lemma_seek_is(b, end, n);
    text::lemma_seek_is(c, end, n);
    assert(b.take(n + 4) =~= h);
    assert(c.take(n + 4) =~= h);
    assert(b.take(b.len() as int) =~= b);
}

/// The length of a body is the number in the first header called Content-Length, in any case;
/// without one there is no body.
pub proof fn law_content_length(
    before: Seq<Seq<char>>,
    name: Seq<char>,
    value: Seq<char>,
    behind: Seq<Seq<char>>,
)
    requires
        forall|i: int|
            0 <= i < before.len() ==> !(text::cut(#[trigger] before[i], ':') matches Some((other, _))
                && text::same_but_case(other, "content-length"@)),
        text::same_but_case(name, "content-length"@),
    ensures
        length_line(before + seq![name + seq![':'] + value] + behind) == Some(text::trimmed(value)),
        length_line(before) is None,
    decreases before.len(),
{
    let line = name + seq![':'] + value;
    let lines = before + seq![line] + behind;
    if before.len() > 0 {
        assert(lines[0] == before[0]);
        assert(lines.skip(1) =~= before.skip(1) + seq![line] + behind);
        assert forall|i: int| 0 <= i < before.skip(1).len() implies !(text::cut(
            #[trigger] before.skip(1)[i],
            ':',
        ) matches Some((other, _)) && text::same_but_case(other, "content-length"@)) by {
            assert(before.skip(1)[i] == before[i + 1]);
        }
        law_content_length(before.skip(1), name, value, behind);
    } else {
        assert(lines[0] == line);
        reveal_strlit("content-length");
        let known = "content-length"@;
        assert(known.len() == 14);
        assert(!name.contains(':')) by {
            if name.contains(':') {
                let i = choose|i: int| 0 <= i < name.len() && name[i] == ':';
                assert(text::small(name[i]) == text::small(known[i]));
                assert(known[i] != ':');
            }
        }
        text::law_cut(name, ':', value);
    }
}

/// Behind a proxy in the own network a client is who the proxy says: the address that its edge
/// names, or else the last one of those that were passed on. What is no address says nothing.
pub proof fn law_proxied_clients(
    peer: IpAddr,
    lead: Seq<char>,
    named: Seq<char>,
    trail: Seq<char>,
    before: Seq<char>,
    other: Option<Seq<char>>,
)
    requires
        trusted_proxy(peer),
        forall|i: int| 0 <= i < lead.len() ==> text::is_white(#[trigger] lead[i]),
        forall|i: int| 0 <= i < trail.len() ==> text::is_white(#[trigger] trail[i]),
        named.len() > 0 && !text::is_white(named[0]) && !text::is_white(named.last()),
        !named.contains(','),
    ensures
        ({
            let ip = match address_text::ip_of(named) {
                Some(ip) => ip,
                None => peer,
            };
            let value = lead + named + trail;
            &&& client_ip(peer, Some(value), other) == ip
            &&& client_ip(peer, None, Some(value)) == ip
            &&& client_ip(peer, None, Some(before + seq![','] + value)) == ip
            &&& client_ip(peer, None, None) == peer
        }),
{
    let value = lead + named + trail;
    text::law_trimming(lead, named, trail);
    assert(text::is_white(',') == false);
    assert forall|i: int| 0 <= i < value.len() implies #[trigger] value[i] != ',' by {
        let l = lead.len() as int;
        let n = named.len() as int;
        if i < l {
            assert(lead[i] == value[i]);
        } else if i < l + n {
            assert(named[i - l] == value[i]);
            assert(named.contains(value[i]));
        } else {
            assert(trail[i - l - n] == value[i]);
        }
    }
    text::lemma_last_position_bounds(value, ',');
    assert(text::last_position(value, ',') == -1);
    assert(value.skip(0) =~= value);
    let all = before + seq![','] + value;
    text::lemma_last_position_bounds(all, ',');
    let comma = text::last_position(all, ',');
    assert(all[before.len() as int] == ',');
    assert(comma == before.len()) by {
        if comma > before.len() {
            assert(all[comma] == value[comma - before.len() - 1]);
        }
    }
    assert(all.skip(comma + 1) =~= value);
}

/// The own network is 10.0.0.0/8, 172.16.0.0/12, 192.168.0.0/16 and the machine itself.
pub proof fn law_own_network(v4: crate::net::Ipv4Addr, v6: crate::net::Ipv6Addr)
    ensures
        trusted_proxy(IpAddr::V4(v4)) <==> v4.a == 10 || (v4.a == 172 && v4.b / 16 == 1) || (v4.a
            == 192 && v4.b == 168) || v4.a == 127,
        trusted_proxy(IpAddr::V6(v6)) <==> v6.octets() == seq![
            0u8,
            0,
            0,
            0,
            0,
            0,
            0,
            0,
            0,
            0,
            0,
            0,
            0,
            0,
            0,
            1,
        ],
{
    v6.lemma_octets();
    crate::net::law_ipv6_ranges(v6);
}

/// A cookie header is also known where the Kelvin sign stands for its k, which lower case makes
/// one; its value then starts two characters earlier, at the place that seven bytes lead to.
pub proof fn law_kelvin_cookie(value: Seq<char>)
    ensures
        header_line("coo"@ + seq!['\u{212a}'] + "ie:"@ + value) == HeaderLine::Cookie(
            text::trimmed("e:"@ + value),
        ),
{
    reveal_strlit("coo");
    reveal_strlit("ie:");
    reveal_strlit("e:");
    reveal_strlit("host:");
    reveal_strlit("cookie:");
    reveal_strlit("x-server-password:");
    assert("coo"@.len() == 3 && "ie:"@.len() == 3 && "e:"@.len() == 2);
    assert("host:"@.len() == 5 && "cookie:"@.len() == 7 && "x-server-password:"@.len() == 18);
    let line = "coo"@ + seq!['\u{212a}'] + "ie:"@ + value;
    assert(line[0] == 'c' && line[3] == '\u{212a}');
    lemma_not_named(line, "host:"@, 0);
    lemma_not_named(line, "x-server-password:"@, 0);
    lemma_not_named(line, "cookie:"@, 3);
    assert(line.take(3) =~= "coo"@);
    assert(line.subrange(4, 7) =~= "ie:"@);
    assert(line.skip(5) =~= "e:"@ + value);
}

} // verus!
