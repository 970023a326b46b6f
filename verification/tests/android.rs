use rust_proxy::android::{
    given_password, report_android_status, required_agent_id, service_cache_path,
    service_fingerprint,
};

#[test]
fn the_app_is_told_the_state() {
    assert_eq!(
        report_android_status("connecting", None),
        "{\"error\":null,\"state\":\"connecting\"}"
    );
    assert_eq!(
        report_android_status("disconnected", Some("no \"route\"")),
        "{\"error\":\"no \\\"route\\\"\",\"state\":\"disconnected\"}"
    );
}

#[test]
fn the_app_says_what_the_agent_needs() {
    assert_eq!(
        service_cache_path(Some("/data/app".to_string())),
        Ok("/data/app/agent_cache.json".to_string())
    );
    for directory in [None, Some(String::new())] {
        assert_eq!(
            service_cache_path(directory),
            Err("app files directory is unavailable".to_string())
        );
    }
    assert_eq!(service_fingerprint(Some(" ab ".to_string())), Some(" ab ".to_string()));
    assert_eq!(service_fingerprint(Some(" \t".to_string())), None);
    assert_eq!(service_fingerprint(None), None);
    assert_eq!(required_agent_id("phone".to_string()), Ok("phone".to_string()));
    assert_eq!(
        required_agent_id(String::new()),
        Err("agent ID is required".to_string())
    );
    assert_eq!(given_password("pw".to_string()), Some("pw".to_string()));
    assert_eq!(given_password(String::new()), None);
}
