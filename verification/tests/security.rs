use rust_proxy::security::{
    add_to_blacklist, get_blacklist, is_blacklisted, remove_from_blacklist, report_failure,
    report_success, BlacklistRecord, SecurityManager, BAN_TTL_SECS, MAX_FAILED_ATTEMPTS,
};

#[test]
fn expired_bans_are_removed() {
    let now = 1_700_000_000;
    let mut sm = SecurityManager::new();
    sm.bans.insert("expired".to_string(), now - 1);
    sm.bans.insert("active".to_string(), now + 60);
    assert!(sm.remove_expired(now));
    assert!(sm.bans.get("expired").is_none());
    assert!(sm.bans.get("active").is_some());
}

#[test]
fn ten_failures_ban_for_a_quarter_of_an_hour() {
    let mut sm = SecurityManager::new();
    for attempt in 0..MAX_FAILED_ATTEMPTS {
        assert!(!is_blacklisted(&mut sm, "198.51.100.7", 100 + attempt));
        report_failure(&mut sm, "198.51.100.7", 100 + attempt);
    }
    assert!(sm.unsaved);
    assert!(is_blacklisted(&mut sm, "198.51.100.7", 110));
    assert!(!is_blacklisted(&mut sm, "198.51.100.8", 110));
    assert!(is_blacklisted(&mut sm, "198.51.100.7", 109 + BAN_TTL_SECS - 1));
    assert!(!is_blacklisted(&mut sm, "198.51.100.7", 109 + BAN_TTL_SECS));
    assert!(sm.failed_attempts.get("198.51.100.7").is_none());
}

#[test]
fn a_success_forgets_failures() {
    let mut sm = SecurityManager::new();
    for _ in 0..MAX_FAILED_ATTEMPTS - 1 {
        report_failure(&mut sm, "198.51.100.7", 5);
    }
    report_success(&mut sm, "198.51.100.7");
    report_failure(&mut sm, "198.51.100.7", 5);
    assert!(!is_blacklisted(&mut sm, "198.51.100.7", 5));
    assert_eq!(sm.failed_attempts.get("198.51.100.7"), Some(1));
}

#[test]
fn nine_failures_after_a_success_or_an_ended_ban_do_not_ban() {
    let ip = "198.51.100.7";
    let mut sm = SecurityManager::new();
    for _ in 0..9 {
        report_failure(&mut sm, ip, 5);
    }
    report_success(&mut sm, ip);
    for _ in 0..9 {
        report_failure(&mut sm, ip, 6);
        assert!(!is_blacklisted(&mut sm, ip, 6));
    }
    report_failure(&mut sm, ip, 7);
    assert!(is_blacklisted(&mut sm, ip, 7));
    let end = 7 + BAN_TTL_SECS;
    for _ in 0..9 {
        report_failure(&mut sm, ip, end);
        assert!(!is_blacklisted(&mut sm, ip, end));
    }
    report_failure(&mut sm, ip, end);
    assert!(is_blacklisted(&mut sm, ip, end + BAN_TTL_SECS - 1));
    assert!(!is_blacklisted(&mut sm, ip, end + BAN_TTL_SECS));
}

#[test]
fn failures_of_a_banned_address_do_not_count() {
    let mut sm = SecurityManager::new();
    assert!(add_to_blacklist(&mut sm, "198.51.100.7".to_string(), 5));
    report_failure(&mut sm, "198.51.100.7", 6);
    assert_eq!(sm.failed_attempts.get("198.51.100.7"), None);
}

#[test]
fn the_operator_bans_and_pardons() {
    let mut sm = SecurityManager::new();
    assert!(add_to_blacklist(&mut sm, "b".to_string(), 0));
    assert!(add_to_blacklist(&mut sm, "a".to_string(), 0));
    assert!(!add_to_blacklist(&mut sm, "a".to_string(), 1));
    assert_eq!(get_blacklist(&mut sm, 1), vec!["a".to_string(), "b".to_string()]);
    assert!(remove_from_blacklist(&mut sm, "a"));
    assert!(!remove_from_blacklist(&mut sm, "a"));
    assert_eq!(get_blacklist(&mut sm, 1), vec!["b".to_string()]);
    assert_eq!(get_blacklist(&mut sm, BAN_TTL_SECS), Vec::<String>::new());
}

#[test]
fn stored_bans_come_back_until_they_end() {
    let mut sm = SecurityManager::new();
    let records = vec![
        BlacklistRecord { ip: "old".to_string(), expires_at: 50 },
        BlacklistRecord { ip: "new".to_string(), expires_at: 51 },
    ];
    assert!(sm.load_blacklist(Some(records), "", 50));
    assert_eq!(get_blacklist(&mut sm, 50), vec!["new".to_string()]);
    assert!(!sm.unsaved);
    let kept = sm.records();
    assert_eq!(kept.len(), 1);
    assert_eq!(kept[0].ip, "new");
    assert_eq!(kept[0].expires_at, 51);
}

#[test]
fn plain_lists_of_addresses_are_taken_over() {
    let mut sm = SecurityManager::new();
    assert!(sm.load_blacklist(None, r#"["10.0.0.1","10.0.0.2"]"#, 7));
    assert!(sm.unsaved);
    assert_eq!(sm.bans.get("10.0.0.1"), Some(7 + BAN_TTL_SECS));
    assert_eq!(sm.bans.get("10.0.0.2"), Some(7 + BAN_TTL_SECS));

    let mut sm = SecurityManager::new();
    assert!(!sm.load_blacklist(None, r#"{"ip":"10.0.0.1"}"#, 7));
    assert!(!sm.unsaved);
    assert_eq!(sm.bans.len(), 0);

    let mut sm = SecurityManager::new();
    sm.load_blacklist_text(" 10.0.0.1 \n\n10.0.0.2\r\n", 7);
    assert_eq!(
        get_blacklist(&mut sm, 7),
        vec!["10.0.0.1".to_string(), "10.0.0.2".to_string()]
    );
}
