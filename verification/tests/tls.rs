use rust_proxy::tls::{
    certificate_matches, choose_name, fingerprint, load_identity, parse_fingerprint, server_host,
    server_name, store_identity, IdentityError, ServerName, ServerNameError, StoredIdentity,
};

#[test]
fn fingerprint_parser_accepts_colons_but_not_short_values() {
    let fingerprint = fingerprint(&[7; 3]);
    assert_eq!(parse_fingerprint(&fingerprint).unwrap().len(), 32);
    assert!(parse_fingerprint("bad").is_err());
}

#[test]
fn fingerprints_are_digests() {
    assert_eq!(
        fingerprint(b"abc"),
        "ba7816bf8f01cfea414140de5dae2223b00361a396177a9cb410ff61f20015ad"
    );
    let digest = parse_fingerprint(
        "BA:7816bf8f01cfea414140de5dae2223b00361a396177a9cb410ff61f20015ad",
    )
    .unwrap();
    assert_eq!(digest[0], 0xba);
    assert!(certificate_matches(b"abc", &digest));
    assert!(!certificate_matches(b"abd", &digest));
    assert!(parse_fingerprint(&"g".repeat(64)).is_err());
    assert!(parse_fingerprint(&"a".repeat(66)).is_err());
}

#[test]
fn identities_are_stored_and_read_back() {
    let stored = store_identity(b"certificate", b"key");
    assert_eq!(stored.certificate_der, "Y2VydGlmaWNhdGU=");
    assert_eq!(stored.private_key_der, "a2V5");
    assert_eq!(load_identity(&stored), Ok((b"certificate".to_vec(), b"key".to_vec())));
    let bad = StoredIdentity {
        certificate_der: "***".to_string(),
        private_key_der: "a2V5".to_string(),
    };
    assert_eq!(load_identity(&bad), Err(IdentityError::Certificate));
    let bad = StoredIdentity {
        certificate_der: "a2V5".to_string(),
        private_key_der: "***".to_string(),
    };
    assert_eq!(load_identity(&bad), Err(IdentityError::PrivateKey));
}

#[test]
fn servers_are_named() {
    assert!(matches!(server_name("127.0.0.1:8080"), Ok(ServerName::IpAddress(_))));
    assert!(matches!(server_name("[::1]:8080"), Ok(ServerName::IpAddress(_))));
    match server_name("proxy.example:8080") {
        Ok(ServerName::Host(host)) => assert_eq!(host, "proxy.example"),
        _ => panic!("the host was not named"),
    }
    assert!(matches!(server_name("proxy.example"), Err(ServerNameError::NoPort)));
    assert!(matches!(server_name("[::1"), Err(ServerNameError::Bracket)));
    assert!(matches!(server_name("no spaces here:1"), Err(ServerNameError::Host)));
    assert_eq!(server_host("a:b:1").ok(), Some("a:b".to_string()));
    assert!(matches!(choose_name("x", false), Err(ServerNameError::Host)));
    assert!(matches!(choose_name("x", true), Ok(ServerName::Host(_))));
}
