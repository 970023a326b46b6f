use rust_proxy::session::{
    clear_cookie_header, constant_time_eq, create, insert, is_valid, random_token, revoke,
    set_cookie_header, token_from_cookie_header, SessionStore, COOKIE_NAME, MAX_SESSIONS, TTL,
};

/// Bytes that differ for each number.
fn bytes(n: u8) -> [u8; 32] {
    let mut bytes = [0u8; 32];
    bytes[0] = n;
    bytes[31] = 0xa0;
    bytes
}

#[test]
fn session_lifecycle() {
    let mut store = SessionStore::new();
    let now = 1_000;
    let t = create(&mut store, Some(bytes(1)), now).unwrap();
    assert_eq!(t.len(), 64);
    assert!(is_valid(&mut store, &t, now));
    revoke(&mut store, &t);
    assert!(!is_valid(&mut store, &t, now));
    assert!(!is_valid(&mut store, "forged", now));

    for n in 0..MAX_SESSIONS + 5 {
        create(&mut store, Some(bytes(n as u8)), now).unwrap();
    }
    assert!(store.len() <= MAX_SESSIONS);
}

#[test]
fn expired_session_is_rejected() {
    let mut store = SessionStore::new();
    let now = 5_000;
    insert(&mut store, "expired-token".into(), now, now);
    assert!(!is_valid(&mut store, "expired-token", now));
}

#[test]
fn parses_cookie_header() {
    assert_eq!(token_from_cookie_header("a=1; rp_session=abc; b=2"), Some("abc".to_string()));
    assert_eq!(token_from_cookie_header("rp_session="), None);
    assert_eq!(token_from_cookie_header("x_rp_session=abc"), None);
}

#[test]
fn secure_flag_follows_scheme() {
    assert!(set_cookie_header("t", true).contains("Secure;"));
    assert!(!set_cookie_header("t", false).contains("Secure"));
}

#[test]
fn compares_passwords() {
    assert!(constant_time_eq("secret", "secret"));
    assert!(!constant_time_eq("secret", "secreT"));
    assert!(!constant_time_eq("secret", "secret1"));
}

#[test]
fn a_session_ends_when_its_time_is_up() {
    let mut store = SessionStore::new();
    let token = create(&mut store, Some(bytes(7)), 10).unwrap();
    assert!(is_valid(&mut store, &token, 10 + TTL - 1));
    assert!(!is_valid(&mut store, &token, 10 + TTL));
    assert_eq!(store.len(), 0);
}

#[test]
fn no_session_without_random_bytes() {
    let mut store = SessionStore::new();
    assert_eq!(create(&mut store, None, 0), None);
    assert_eq!(store.len(), 0);
}

#[test]
fn a_token_is_the_bytes_in_hex() {
    let mut bytes = [0u8; 32];
    bytes[0] = 0x0f;
    bytes[1] = 0xa5;
    let token = random_token(&bytes);
    assert!(token.starts_with("0fa500"));
    assert_eq!(token.len(), 64);
}

#[test]
fn created_sessions_are_valid_and_few() {
    let mut store = SessionStore::new();
    for n in 0..250u64 {
        let mut drawn = [0xabu8; 32];
        drawn[0] = n as u8;
        let token = create(&mut store, Some(drawn), n).unwrap();
        assert_eq!(token.len(), 64);
        assert!(token.chars().all(|c| matches!(c, '0'..='9' | 'a'..='f')));
        assert!(is_valid(&mut store, &token, n));
        assert!(store.len() <= 100);
    }
    assert_eq!(store.len(), 100);
}

#[test]
fn the_oldest_session_makes_room() {
    let mut store = SessionStore::new();
    for n in 0..MAX_SESSIONS {
        insert(&mut store, format!("t{n}"), 1_000 + n as u64, 0);
    }
    insert(&mut store, "new".to_string(), 9_000, 0);
    assert_eq!(store.len(), MAX_SESSIONS);
    assert!(!is_valid(&mut store, "t0", 1));
    assert!(is_valid(&mut store, "t1", 1));
    assert!(is_valid(&mut store, "new", 1));
}

#[test]
fn ended_sessions_make_room_first() {
    let mut store = SessionStore::new();
    for n in 0..MAX_SESSIONS {
        let expires_at = if n % 2 == 0 { 50 } else { 500 };
        insert(&mut store, format!("t{n}"), expires_at, 0);
    }
    insert(&mut store, "new".to_string(), 900, 100);
    assert_eq!(store.len(), MAX_SESSIONS / 2 + 1);
}

#[test]
fn cookies_are_written_in_full() {
    assert_eq!(
        set_cookie_header("abc", true),
        "Set-Cookie: rp_session=abc; HttpOnly; Secure; SameSite=Strict; Path=/; Max-Age=604800"
    );
    assert_eq!(
        set_cookie_header("abc", false),
        "Set-Cookie: rp_session=abc; HttpOnly; SameSite=Strict; Path=/; Max-Age=604800"
    );
    assert_eq!(
        clear_cookie_header(false),
        "Set-Cookie: rp_session=; HttpOnly; SameSite=Strict; Path=/; Max-Age=0"
    );
    assert_eq!(COOKIE_NAME, "rp_session");
}

#[test]
fn the_cookie_gives_the_token_back() {
    let mut store = SessionStore::new();
    let token = create(&mut store, Some(bytes(9)), 0).unwrap();
    let header = format!("theme=dark; {COOKIE_NAME}={token}");
    assert_eq!(token_from_cookie_header(&header), Some(token));
}
