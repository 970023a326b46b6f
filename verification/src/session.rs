//! Dashboard login sessions: random token and expiry, held in memory.
//!
//! Times are nanoseconds of a monotonic clock.
use vstd::prelude::*;
use vstd::utf8::encode_utf8;

use crate::registry;
use crate::text;

verus! {

/// The name of the session cookie.
pub const COOKIE_NAME: &'static str = "rp_session";

/// How long a session lasts: seven days.
pub const TTL: u64 = 604_800_000_000_000;

/// How many nanoseconds a second has.
pub const NANOS_PER_SEC: u64 = 1_000_000_000;

/// How many sessions are kept at most.
pub const MAX_SESSIONS: usize = 100;

/// The sessions.
#[derive(Debug)]
pub struct SessionStore {
    pub sessions: dashmap::DashMap<String, u64>,
}

impl SessionStore {
    /// The tokens with their expiries.
    pub open spec fn contents(self) -> Map<Seq<char>, u64> {
        registry::numbers(self.sessions)
    }

    /// There are at most `MAX_SESSIONS` sessions.
    pub open spec fn wf(self) -> bool {
        self.contents().dom().finite() && self.contents().dom().len() <= MAX_SESSIONS
    }

    /// No sessions.
    pub fn new() -> (res: SessionStore)
        ensures
            res.wf(),
            res.contents() == Map::<Seq<char>, u64>::empty(),
    {
        let res = SessionStore { sessions: registry::numbers_new() };
        assert(res.contents().dom() =~= Set::<Seq<char>>::empty());
        res
    }

    /// How many sessions there are.
    pub fn len(&self) -> (res: usize)
        ensures
            res == self.contents().dom().len(),
    {
        registry::numbers_len(&self.sessions)
    }
}

/// The sessions that have not expired.
pub open spec fn unexpired(sessions: Map<Seq<char>, u64>, now: u64) -> Map<Seq<char>, u64> {
    sessions.restrict(
        Set::new(|token: Seq<char>| sessions.contains_key(token) && sessions[token] > now),
    )
}

/// The sessions that are kept when a new one comes: where there are too many, those that have
/// not expired.
pub open spec fn kept(sessions: Map<Seq<char>, u64>, now: u64) -> Map<Seq<char>, u64> {
    if sessions.dom().len() >= MAX_SESSIONS {
        unexpired(sessions, now)
    } else {
        sessions
    }
}

/// Whether no session expires before that of `token`.
pub open spec fn oldest(sessions: Map<Seq<char>, u64>, token: Seq<char>) -> bool {
    &&& sessions.contains_key(token)
    &&& forall|other: Seq<char>| #[trigger]
        sessions.contains_key(other) ==> sessions[token] <= sessions[other]
}

/// What a store may hold after a session was added: those kept, without an oldest one where
/// there are still too many, and the new one.
pub open spec fn added(
    before: Map<Seq<char>, u64>,
    after: Map<Seq<char>, u64>,
    token: Seq<char>,
    expires_at: u64,
    now: u64,
) -> bool {
    let kept = kept(before, now);
    if kept.dom().len() >= MAX_SESSIONS {
        exists|gone: Seq<char>| #[trigger]
            oldest(kept, gone) && after == kept.remove(gone).insert(token, expires_at)
    } else {
        after == kept.insert(token, expires_at)
    }
}

/// A token of 256 random bits, in hexadecimal.
pub fn random_token(bytes: &[u8; 32]) -> (res: String)
    ensures
        res@ == text::hex_text(bytes@),
        res@.len() == 64,
{
    proof {
        text::lemma_hex_text(bytes@);
    }
    text::to_hex(bytes)
}

/// Creates a session from random bytes and returns its token. Without random bytes there is no
/// session: there is no guessable token to fall back on.
pub fn create(store: &mut SessionStore, random: Option<[u8; 32]>, now: u64) -> (res: Option<String>)
    requires
        old(store).wf(),
        now + TTL <= u64::MAX,
    ensures
        final(store).wf(),
        match (random, res) {
            (Some(bytes), Some(token)) => {
                &&& token@ == text::hex_text(bytes@)
                &&& added(
                    old(store).contents(),
                    final(store).contents(),
                    token@,
                    (now + TTL) as u64,
                    now,
                )
            },
            (None, None) => final(store).contents() == old(store).contents(),
            _ => false,
        },
{
    match random {
        Some(bytes) => {
            let token = random_token(&bytes);
            insert(store, text::copy_text(token.as_str()), now + TTL, now);
            Some(token)
        },
        None => None,
    }
}

/// Removes the sessions that have expired.
fn drop_expired(store: &mut SessionStore, now: u64)
    requires
        old(store).wf(),
    ensures
        final(store).contents() == unexpired(old(store).contents(), now),
        final(store).wf(),
{
    let ghost before = store.contents();
    let items = registry::numbers_items(&store.sessions);
    let n: usize = items.len();
    let mut i: usize = 0;
    while i < n
        invariant
            i <= n,
            n == items@.len(),
            registry::lists(items@, before),
            before.dom().finite(),
            before.dom().len() <= MAX_SESSIONS,
            forall|token: Seq<char>| #[trigger]
                store.contents().contains_key(token) <==> before.contains_key(token) && !(exists|
                    j: int,
                |
                    0 <= j < i && (#[trigger] items@[j]).0@ == token && items@[j].1 <= now),
            forall|token: Seq<char>| #[trigger]
                store.contents().contains_key(token) ==> store.contents()[token] == before[token],
        decreases n - i,
    {
        let ghost held = store.contents();
        if items[i].1 <= now {
            registry::numbers_remove(&mut store.sessions, items[i].0.as_str());
        }
        proof {
            let gone = items@[i as int].0@;
            assert forall|token: Seq<char>| #[trigger]
                store.contents().contains_key(token) <==> before.contains_key(token) && !(exists|
                    j: int,
                |
                    0 <= j < i + 1 && (#[trigger] items@[j]).0@ == token && items@[j].1 <= now) by {
                assert(held.contains_key(token) <==> before.contains_key(token) && !(exists|j: int|
                    0 <= j < i && (#[trigger] items@[j]).0@ == token && items@[j].1 <= now));
                if token == gone && items@[i as int].1 <= now {
                    assert(items@[i as int].0@ == token);
                }
            }
        }
        i += 1;
    }
    proof {
        let after = store.contents();
        let want = unexpired(before, now);
        assert forall|token: Seq<char>| #[trigger]
            after.dom().contains(token) <==> want.dom().contains(token) by {
            assert(after.contains_key(token) <==> before.contains_key(token) && !(exists|j: int|
                0 <= j < n && (#[trigger] items@[j]).0@ == token && items@[j].1 <= now));
            if before.contains_key(token) {
                let k = choose|k: int| 0 <= k < items@.len() && items@[k].0@ == token;
                assert(before.dom().contains(token));
                assert(before.contains_pair(items@[k].0@, items@[k].1));
            }
        }
        assert(after =~= want);
        assert(want.dom().subset_of(before.dom()));
        vstd::set_lib::lemma_len_subset(want.dom(), before.dom());
    }
}

/// A token whose session no other expires before.
fn find_oldest(store: &SessionStore) -> (res: Option<String>)
    ensures
        match res {
            Some(token) => oldest(store.contents(), token@),
            None => store.contents().dom() == Set::<Seq<char>>::empty(),
        },
{
    let items = registry::numbers_items(&store.sessions);
    let n: usize = items.len();
    let ghost all = store.contents();
    if n == 0 {
        assert(all.dom() =~= Set::<Seq<char>>::empty());
        return None;
    }
    let mut best: usize = 0;
    let mut i: usize = 1;
    while i < n
        invariant
            best < n,
            i <= n,
            n == items@.len(),
            forall|j: int| 0 <= j < i ==> items@[best as int].1 <= (#[trigger] items@[j]).1,
        decreases n - i,
    {
        if items[i].1 < items[best].1 {
            best = i;
        }
        i += 1;
    }
    proof {
        let token = items@[best as int].0@;
        assert(all.contains_pair(token, items@[best as int].1));
        assert forall|other: Seq<char>| #[trigger] all.contains_key(other) implies all[token]
            <= all[other] by {
            assert(all.dom().contains(other));
            let k = choose|k: int| 0 <= k < items@.len() && items@[k].0@ == other;
            assert(all.contains_pair(items@[k].0@, items@[k].1));
        }
    }
    Some(text::copy_text(items[best].0.as_str()))
}

/// Adds a session. Where there are too many, the expired ones go, and then an oldest one.
pub fn insert(store: &mut SessionStore, token: String, expires_at: u64, now: u64)
    requires
        old(store).wf(),
    ensures
        final(store).wf(),
        added(old(store).contents(), final(store).contents(), token@, expires_at, now),
{
    if store.len() >= MAX_SESSIONS {
        drop_expired(store, now);
    }
    let ghost kept = store.contents();
    assert(kept == self::kept(old(store).contents(), now));
    if store.len() >= MAX_SESSIONS {
        match find_oldest(store) {
            Some(gone) => {
                registry::numbers_remove(&mut store.sessions, gone.as_str());
                assert(store.contents().dom() =~= kept.dom().remove(gone@));
                assert(oldest(kept, gone@));
            },
            None => {
                assert(kept.dom().len() == 0);
            },
        }
    }
    let ghost room = store.contents();
    let ghost key = token@;
    registry::numbers_insert(&mut store.sessions, token, expires_at);
    assert(store.contents().dom() =~= room.dom().insert(key));
}

/// Whether a token opens a session now.
pub open spec fn valid(sessions: Map<Seq<char>, u64>, token: Seq<char>, now: u64) -> bool {
    sessions.contains_key(token) && sessions[token] > now
}

/// The sessions after a token was looked up: one that has ended is gone.
pub open spec fn checked(sessions: Map<Seq<char>, u64>, token: Seq<char>, now: u64) -> Map<
    Seq<char>,
    u64,
> {
    if sessions.contains_key(token) && sessions[token] <= now {
        sessions.remove(token)
    } else {
        sessions
    }
}

/// Whether a token has a session that has not expired. An expired one is removed.
pub fn is_valid(store: &mut SessionStore, token: &str, now: u64) -> (res: bool)
    requires
        old(store).wf(),
    ensures
        final(store).wf(),
        res == valid(old(store).contents(), token@, now),
        final(store).contents() == checked(old(store).contents(), token@, now),
{
    match registry::numbers_get(&store.sessions, token) {
        Some(expires_at) => {
            if expires_at <= now {
                revoke(store, token);
                false
            } else {
                true
            }
        },
        None => false,
    }
}

/// Ends a session.
pub fn revoke(store: &mut SessionStore, token: &str)
    requires
        old(store).wf(),
    ensures
        final(store).wf(),
        final(store).contents() == old(store).contents().remove(token@),
{
    let ghost before = store.contents();
    registry::numbers_remove(&mut store.sessions, token);
    proof {
        assert(store.contents().dom() =~= before.dom().remove(token@));
    }
}

// ---------------------------------------------------------------------------------------------
// The cookie
// ---------------------------------------------------------------------------------------------

/// The token in one part of a cookie header, where the part is our cookie and not empty.
pub open spec fn token_in_part(part: Seq<char>) -> Option<Seq<char>> {
    match text::cut(text::trimmed(part), '=') {
        Some((name, value)) => if name == COOKIE_NAME@ && value.len() > 0 {
            Some(value)
        } else {
            None
        },
        None => None,
    }
}

/// The token in the first part that has one.
pub open spec fn token_in_parts(parts: Seq<Seq<char>>) -> Option<Seq<char>>
    decreases parts.len(),
{
    if parts.len() == 0 {
        None
    } else {
        match token_in_part(parts[0]) {
            Some(token) => Some(token),
            None => token_in_parts(parts.skip(1)),
        }
    }
}

/// The session token in a cookie header.
pub open spec fn cookie_token(header: Seq<char>) -> Option<Seq<char>> {
    token_in_parts(text::pieces(header, ';'))
}

/// Extracts our session token from a raw `Cookie:` header value.
pub fn token_from_cookie_header(header: &str) -> (res: Option<String>)
    ensures
        match res {
            Some(token) => cookie_token(header@) == Some(token@),
            None => cookie_token(header@) is None,
        },
{
    let chars = text::to_chars(header);
    let name = text::to_chars(COOKIE_NAME);
    let parts = text::split(chars.as_slice(), ';');
    let ghost all = text::contents(parts@);
    let n: usize = parts.len();
    let mut i: usize = 0;
    proof {
        assert(all.skip(0) =~= all);
    }
    while i < n
        invariant
            i <= n,
            n == parts@.len(),
            name@ == COOKIE_NAME@,
            all == text::contents(parts@),
            all == text::pieces(header@, ';'),
            token_in_parts(all.skip(i as int)) == cookie_token(header@),
        decreases n - i,
    {
        proof {
            assert(all.skip(i as int)[0] == parts@[i as int]@);
            assert(all.skip(i as int).skip(1) =~= all.skip(i + 1));
        }
        if let Some((key, value)) = text::split_once(text::trim(parts[i]), '=') {
            if text::same(key, name.as_slice()) && value.len() > 0 {
                return Some(text::from_chars(value));
            }
        }
        i += 1;
    }
    None
}

/// The part of a cookie header that browsers on plain HTTP would drop the cookie for.
pub open spec fn secure_flag(secure: bool) -> Seq<char> {
    if secure {
        " Secure;"@
    } else {
        ""@
    }
}

/// The header line that sets the session cookie.
pub open spec fn set_cookie_text(token: Seq<char>, secure: bool) -> Seq<char> {
    "Set-Cookie: "@ + COOKIE_NAME@ + "="@ + token + "; HttpOnly;"@ + secure_flag(secure)
        + " SameSite=Strict; Path=/; Max-Age="@ + text::decimal((TTL / NANOS_PER_SEC) as nat)
}

/// The header line that removes the session cookie.
pub open spec fn clear_cookie_text(secure: bool) -> Seq<char> {
    "Set-Cookie: "@ + COOKIE_NAME@ + "=; HttpOnly;"@ + secure_flag(secure)
        + " SameSite=Strict; Path=/; Max-Age=0"@
}

/// `secure` only when the request came over HTTPS.
pub fn set_cookie_header(token: &str, secure: bool) -> (res: String)
    ensures
        res@ == set_cookie_text(token@, secure),
{
    let mut res: String = text::join("Set-Cookie: ", COOKIE_NAME);
    res = text::join(res.as_str(), "=");
    res = text::join(res.as_str(), token);
    res = text::join(res.as_str(), "; HttpOnly;");
    res = text::join(res.as_str(), if secure { " Secure;" } else { "" });
    res = text::join(res.as_str(), " SameSite=Strict; Path=/; Max-Age=");
    text::push_decimal(&mut res, (TTL / NANOS_PER_SEC) as u128);
    res
}

/// `secure` only when the request came over HTTPS.
pub fn clear_cookie_header(secure: bool) -> (res: String)
    ensures
        res@ == clear_cookie_text(secure),
{
    let mut res: String = text::join("Set-Cookie: ", COOKIE_NAME);
    res = text::join(res.as_str(), "=; HttpOnly;");
    res = text::join(res.as_str(), if secure { " Secure;" } else { "" });
    res = text::join(res.as_str(), " SameSite=Strict; Path=/; Max-Age=0");
    res
}

/// Comparison that looks at every byte, so that password checks don't leak how many leading
/// bytes matched. What is returned is stated; how long it takes is not.
pub fn constant_time_eq(a: &str, b: &str) -> (res: bool)
    ensures
        res == (a@ == b@),
{
    let x = a.as_bytes();
    let y = b.as_bytes();
    proof {
        vstd::utf8::encode_utf8_decode_utf8(a@);
        vstd::utf8::encode_utf8_decode_utf8(b@);
        assert(x@ == encode_utf8(a@));
        assert(y@ == encode_utf8(b@));
    }
    if x.len() != y.len() {
        return false;
    }
    let n: usize = x.len();
    let mut acc: u8 = 0;
    let mut i: usize = 0;
    while i < n
        invariant
            i <= n,
            n == x@.len(),
            n == y@.len(),
            acc == 0 <==> forall|j: int| 0 <= j < i ==> x@[j] == y@[j],
        decreases n - i,
    {
        let p: u8 = x[i];
        let q: u8 = y[i];
        assert(acc | (p ^ q) == 0 <==> acc == 0 && p == q) by (bit_vector);
        acc = acc | (p ^ q);
        i += 1;
    }
    proof {
        if acc == 0 {
            assert(x@ =~= y@);
        }
    }
    acc == 0
}

// ---------------------------------------------------------------------------------------------
// Laws
// ---------------------------------------------------------------------------------------------

/// A session that was just added is there, with its expiry, and there are never too many.
pub proof fn law_added_session_is_there(
    before: Map<Seq<char>, u64>,
    after: Map<Seq<char>, u64>,
    token: Seq<char>,
    expires_at: u64,
    now: u64,
)
    requires
        before.dom().finite(),
        before.dom().len() <= MAX_SESSIONS,
        added(before, after, token, expires_at, now),
    ensures
        after.contains_key(token),
        after[token] == expires_at,
        after.dom().finite(),
        after.dom().len() <= MAX_SESSIONS,
        forall|other: Seq<char>|
            other != token && #[trigger] after.contains_key(other) ==> before.contains_key(other)
                && after[other] == before[other],
{
    let kept = kept(before, now);
    assert(kept.dom().subset_of(before.dom()));
    vstd::set_lib::lemma_len_subset(kept.dom(), before.dom());
    if kept.dom().len() >= MAX_SESSIONS {
        let gone = choose|gone: Seq<char>| #[trigger]
            oldest(kept, gone) && after == kept.remove(gone).insert(token, expires_at);
        assert(after.dom() =~= kept.dom().remove(gone).insert(token));
    } else {
        assert(after.dom() =~= kept.dom().insert(token));
    }
}

proof fn lemma_hex_char(d: int)
    requires
        0 <= d < 16,
    ensures
        !text::is_white(text::hex_digit(d)),
        text::hex_digit(d) != ';',
        text::hex_digit(d) != '=',
{
}

proof fn lemma_token_chars(bytes: Seq<u8>, i: int)
    requires
        0 <= i < text::hex_text(bytes).len(),
    ensures
        !text::is_white(text::hex_text(bytes)[i]),
        text::hex_text(bytes)[i] != ';',
        text::hex_text(bytes)[i] != '=',
{
    text::lemma_hex_text(bytes);
    let k = i / 2;
    if i % 2 == 0 {
        assert(text::hex_text(bytes)[2 * k] == text::hex_digit(bytes[k] as int / 16));
        lemma_hex_char(bytes[k] as int / 16);
    } else {
        assert(text::hex_text(bytes)[2 * k] == text::hex_digit(bytes[k] as int / 16));
        assert(text::hex_text(bytes)[2 * k + 1] == text::hex_digit(bytes[k] as int % 16));
        lemma_hex_char(bytes[k] as int % 16);
    }
}

/// A browser that sends back the cookie that was set is known by its token.
pub proof fn law_cookie_gives_token_back(bytes: Seq<u8>)
    requires
        bytes.len() == 32,
    ensures
        cookie_token(COOKIE_NAME@ + "="@ + text::hex_text(bytes)) == Some(text::hex_text(bytes)),
{
    let token = text::hex_text(bytes);
    let part = COOKIE_NAME@ + "="@ + token;
    let name = COOKIE_NAME@;
    text::lemma_hex_text(bytes);
    reveal_strlit("rp_session");
    reveal_strlit("=");
    assert(name =~= seq!['r', 'p', '_', 's', 'e', 's', 's', 'i', 'o', 'n']);
    let n = name.len() as int;
    assert(part[n] == '=');
    assert forall|i: int| 0 <= i < part.len() implies #[trigger] part[i] != ';'
        && !text::is_white(part[i]) by {
        if i > n {
            assert(part[i] == token[i - n - 1]);
            lemma_token_chars(bytes, i - n - 1);
        } else if i < n {
            assert(part[i] == name[i]);
        }
    }
    assert forall|j: int| 0 <= j < n implies part[j] != '=' by {
        assert(part[j] == name[j]);
    }
    text::lemma_position(part, ';', part.len() as int);
    assert(text::pieces(part, ';') =~= seq![part]);
    assert(!text::is_white(part[0]) && !text::is_white(part[part.len() - 1]));
    assert(text::trimmed(part) == part);
    text::lemma_position(part, '=', n);
    assert(part.take(n) =~= name);
    assert(part.skip(n + 1) =~= token);
    assert(token_in_part(part) == Some(token));
}

/// A new session is valid until it ends, and not from that moment on; revoking it ends it at
/// once.
pub proof fn law_session_lifecycle(
    before: Map<Seq<char>, u64>,
    after: Map<Seq<char>, u64>,
    token: Seq<char>,
    expires_at: u64,
    now: u64,
    later: u64,
)
    requires
        before.dom().finite(),
        before.dom().len() <= MAX_SESSIONS,
        added(before, after, token, expires_at, now),
    ensures
        valid(after, token, later) <==> later < expires_at,
        !valid(after.remove(token), token, later),
{
    law_added_session_is_there(before, after, token, expires_at, now);
}

/// Whether a text can be a token: 64 small hexadecimal digits.
pub open spec fn is_token(s: Seq<char>) -> bool {
    &&& s.len() == 64
    &&& forall|i: int| 0 <= i < s.len() ==> '0' <= #[trigger] s[i] <= '9' || 'a' <= s[i] <= 'f'
}

/// What a login works on: the random bytes that it draws, and when it is.
pub struct Creation {
    pub bytes: [u8; 32],
    pub now: u64,
}

/// Whether logins lead from a store without sessions through these contents, one after another.
pub open spec fn created(history: Seq<Map<Seq<char>, u64>>, logins: Seq<Creation>) -> bool {
    &&& history.len() == logins.len() + 1
    &&& history[0] == Map::<Seq<char>, u64>::empty()
    &&& forall|i: int|
        0 <= i < logins.len() ==> logins[i].now + TTL <= u64::MAX && added(
            history[i],
            history[i + 1],
            text::hex_text(#[trigger] logins[i].bytes@),
            (logins[i].now + TTL) as u64,
            logins[i].now,
        )
}

proof fn lemma_created_is_bounded(
    history: Seq<Map<Seq<char>, u64>>,
    logins: Seq<Creation>,
    i: int,
)
    requires
        created(history, logins),
        0 <= i < history.len(),
    ensures
        history[i].dom().finite(),
        history[i].dom().len() <= MAX_SESSIONS,
    decreases i,
{
    if i > 0 {
        let login = logins[i - 1];
        lemma_created_is_bounded(history, logins, i - 1);
        assert(logins[i - 1].bytes@ == login.bytes@);
        law_added_session_is_there(
            history[i - 1],
            history[i],
            text::hex_text(login.bytes@),
            (login.now + TTL) as u64,
            login.now,
        );
    } else {
        assert(history[0].dom() =~= Set::<Seq<char>>::empty());
    }
}

/// However many sessions are created, each gets a token of 64 hexadecimal digits and is valid from
/// then on for its time, and there are never more than a hundred.
pub proof fn law_created_sessions_are_valid_and_few(
    history: Seq<Map<Seq<char>, u64>>,
    logins: Seq<Creation>,
    i: int,
    later: u64,
)
    requires
        created(history, logins),
        0 <= i < logins.len(),
    ensures
        is_token(text::hex_text(logins[i].bytes@)),
        later < logins[i].now + TTL ==> valid(
            history[i + 1],
            text::hex_text(logins[i].bytes@),
            later,
        ),
        history[i].dom().len() <= 100,
        history[i + 1].dom().len() <= 100,
{
    let login = logins[i];
    let token = text::hex_text(login.bytes@);
    lemma_created_is_bounded(history, logins, i);
    lemma_created_is_bounded(history, logins, i + 1);
    assert(logins[i].bytes@ == login.bytes@);
    law_session_lifecycle(
        history[i],
        history[i + 1],
        token,
        (login.now + TTL) as u64,
        login.now,
        later,
    );
    text::lemma_hex_text(login.bytes@);
    assert forall|j: int| 0 <= j < token.len() implies '0' <= #[trigger] token[j] <= '9' || 'a'
        <= token[j] <= 'f' by {
        let k = j / 2;
        assert(token[2 * k] == text::hex_digit(login.bytes@[k] as int / 16));
        assert(token[2 * k + 1] == text::hex_digit(login.bytes@[k] as int % 16));
        if j % 2 == 0 {
            assert(j == 2 * k);
        } else {
            assert(j == 2 * k + 1);
        }
    }
}

/// Looking a token up changes the validity of no session, then or later.
pub proof fn law_lookup_keeps_valid_sessions(
    sessions: Map<Seq<char>, u64>,
    asked: Seq<char>,
    token: Seq<char>,
    now: u64,
    later: u64,
)
    requires
        now <= later,
    ensures
        valid(checked(sessions, asked, now), token, later) == valid(sessions, token, later),
{
}

/// A session that has not expired leaves only when a hundred are there that have not, and then
/// only one, which expires no later than any other.
pub proof fn law_only_the_oldest_leaves(
    before: Map<Seq<char>, u64>,
    after: Map<Seq<char>, u64>,
    token: Seq<char>,
    expires_at: u64,
    now: u64,
    gone: Seq<char>,
    other: Seq<char>,
)
    requires
        before.dom().finite(),
        added(before, after, token, expires_at, now),
        before.contains_key(gone) && before[gone] > now && !after.contains_key(gone),
        before.contains_key(other) && before[other] > now,
    ensures
        before.dom().len() >= 100,
        before[gone] <= before[other],
        !after.contains_key(other) ==> other == gone,
        other != token && after.contains_key(other) ==> after[other] == before[other],
{
    let kept = kept(before, now);
    assert(kept.contains_key(gone) && kept.contains_key(other));
    assert(kept.dom().subset_of(before.dom()));
    vstd::set_lib::lemma_len_subset(kept.dom(), before.dom());
    if kept.dom().len() >= 100 {
        let old = choose|old: Seq<char>| #[trigger]
            oldest(kept, old) && after == kept.remove(old).insert(token, expires_at);
        assert(old == gone) by {
            if old != gone {
                assert(after.contains_key(gone));
            }
        }
        assert(kept[gone] <= kept[other]);
    } else {
        assert(after.contains_key(gone));
    }
}

/// A session is valid exactly until its end; looking it up then forgets it, and no other.
pub proof fn law_session_ends(
    sessions: Map<Seq<char>, u64>,
    token: Seq<char>,
    other: Seq<char>,
    now: u64,
)
    ensures
        valid(sessions, token, now) <==> sessions.contains_key(token) && now < sessions[token],
        checked(sessions, token, now).contains_key(token) <==> valid(sessions, token, now),
        other != token ==> (checked(sessions, token, now).contains_key(other)
            <==> sessions.contains_key(other)),
        checked(sessions, token, now).contains_key(other) ==> checked(sessions, token, now)[other]
            == sessions[other],
{
}

/// The cookie of a session is called rp_session and kept for seven days, out of reach of scripts;
/// the cookie that ends it is empty and kept for no time. Both are for safe connections alone
/// where the connection is one.
pub proof fn law_cookie_texts(token: Seq<char>)
    ensures
        set_cookie_text(token, true) == "Set-Cookie: "@ + "rp_session"@ + "="@ + token
            + "; HttpOnly;"@ + " Secure;"@ + " SameSite=Strict; Path=/; Max-Age="@ + text::decimal(
            604800,
        ),
        set_cookie_text(token, false) == "Set-Cookie: "@ + "rp_session"@ + "="@ + token
            + "; HttpOnly;"@ + ""@ + " SameSite=Strict; Path=/; Max-Age="@ + text::decimal(604800),
        clear_cookie_text(true) == "Set-Cookie: "@ + "rp_session"@ + "=; HttpOnly;"@ + " Secure;"@
            + " SameSite=Strict; Path=/; Max-Age=0"@,
        clear_cookie_text(false) == "Set-Cookie: "@ + "rp_session"@ + "=; HttpOnly;"@ + ""@
            + " SameSite=Strict; Path=/; Max-Age=0"@,
{
}

/// Cookies of other names, before and behind it, do not hide a session's.
pub proof fn law_other_cookies_do_not_matter(
    name: Seq<char>,
    value: Seq<char>,
    rest: Seq<char>,
    token: Seq<char>,
)
    requires
        !name.contains('='),
        !name.contains(';'),
        !value.contains(';'),
        name.len() > 0 && !text::is_white(name[0]),
        value.len() > 0 && !text::is_white(value.last()),
        name != "rp_session"@,
        token.len() > 0,
        !token.contains(';'),
        !text::is_white(token.last()),
    ensures
        cookie_token(name + seq!['='] + value + seq![';'] + rest) == cookie_token(rest),
        cookie_token(name + seq!['='] + value) is None,
        cookie_token(" "@ + "rp_session"@ + "="@ + token + seq![';'] + rest) == Some(token),
{
    let part = name + seq!['='] + value;
    assert(!part.contains(';')) by {
        if part.contains(';') {
            let i = choose|i: int| 0 <= i < part.len() && part[i] == ';';
            if i < name.len() {
                assert(name[i] == ';');
                assert(name.contains(';'));
            } else if i > name.len() {
                assert(value[i - name.len() - 1] == ';');
                assert(value.contains(';'));
            }
        }
    }
    text::law_parts(part, ';', rest);
    assert(part[0] == name[0] && part.last() == value.last());
    let none = Seq::<char>::empty();
    text::law_trimming(none, part, none);
    assert(none + part + none =~= part);
    text::law_cut(name, '=', value);
    assert(token_in_part(part) is None);
    let parts = seq![part] + text::pieces(rest, ';');
    assert(parts.skip(1) =~= text::pieces(rest, ';'));
    assert(seq![part].skip(1) =~= Seq::<Seq<char>>::empty());
    assert(token_in_parts(seq![part].skip(1)) is None);

    reveal_strlit(" ");
    reveal_strlit("=");
    reveal_strlit("rp_session");
    let own = "rp_session"@;
    assert(own =~= seq!['r', 'p', '_', 's', 'e', 's', 's', 'i', 'o', 'n']);
    let session = own + seq!['='] + token;
    let spaced = seq![' '] + session + none;
    assert(" "@ + own + "="@ + token =~= spaced);
    assert(!spaced.contains(';')) by {
        if spaced.contains(';') {
            let i = choose|i: int| 0 <= i < spaced.len() && spaced[i] == ';';
            if i > 11 {
                assert(token[i - 12] == ';');
                assert(token.contains(';'));
            }
        }
    }
    text::law_parts(spaced, ';', rest);
    assert(session[0] == 'r' && session.last() == token.last());
    text::law_trimming(seq![' '], session, none);
    assert(!own.contains('=')) by {
        if own.contains('=') {
            let i = choose|i: int| 0 <= i < own.len() && own[i] == '=';
            assert(own[i] == '=');
        }
    }
    text::law_cut(own, '=', token);
    assert(token_in_part(spaced) == Some(token));
    assert(" "@ + own + "="@ + token + seq![';'] + rest =~= spaced + seq![';'] + rest);
}

/// When a hundred sessions are there and a new one comes, those that have ended are forgotten
/// first: where there is such a one, every session that has not ended stays.
pub proof fn law_ended_sessions_make_room(
    before: Map<Seq<char>, u64>,
    after: Map<Seq<char>, u64>,
    token: Seq<char>,
    expires_at: u64,
    now: u64,
    ended: Seq<char>,
    other: Seq<char>,
)
    requires
        before.dom().finite(),
        before.dom().len() == 100,
        added(before, after, token, expires_at, now),
        before.contains_key(ended) && before[ended] <= now,
        before.contains_key(other) && before[other] > now,
    ensures
        ended != token ==> !after.contains_key(ended),
        after.contains_key(other),
        other != token ==> after[other] == before[other],
{
    let left = kept(before, now);
    assert(left.contains_key(other) && !left.contains_key(ended));
    assert(left.dom().subset_of(before.dom().remove(ended)));
    vstd::set_lib::lemma_len_subset(left.dom(), before.dom().remove(ended));
}

} // verus!
