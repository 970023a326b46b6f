use rust_proxy::cache::{
    adopt_agent_cache, default_max_conns, load_usage, open_bind, restore_bind, save_server_cache,
    AgentCache, BindConfig, BindHandles, CacheManager, Restore, ServerCache,
};
use rust_proxy::tunnel::{no_binds, no_totals, DEFAULT_MAX_CONNS};

fn bind(port: u16, user: Option<&str>) -> BindConfig {
    BindConfig {
        port,
        agent_id: "phone".to_string(),
        user: user.map(String::from),
        pass: Some("p".to_string()),
        usage: 0,
        max_conns: 42,
    }
}

#[test]
fn only_guarded_ports_are_restored() {
    assert_eq!(restore_bind(&bind(51300, Some("u"))), Restore::Listen);
    assert_eq!(restore_bind(&bind(51300, None)), Restore::MissingCredentials);
    assert_eq!(restore_bind(&bind(80, None)), Restore::MissingCredentials);
    assert_eq!(restore_bind(&bind(80, Some("u"))), Restore::PortRange);
}

#[test]
fn the_caller_owns_the_name() {
    let cache = AgentCache { agent_id: "old".to_string(), cumulative_usage: 9 };
    let adopted = adopt_agent_cache(cache, "new");
    assert_eq!(adopted.agent_id, "new");
    assert_eq!(adopted.cumulative_usage, 9);
    assert_eq!(AgentCache::default().agent_id, "");
    assert!(ServerCache::default().binds.is_empty());
    assert_eq!(CacheManager::new("cache.json").path, "cache.json");
    assert_eq!(default_max_conns(), DEFAULT_MAX_CONNS);
}

#[test]
fn open_ports_and_totals_are_kept() {
    let mut binds = no_binds();
    open_bind(
        &mut binds,
        bind(51307, Some("u")),
        BindHandles { usage: 4, connection_limit: 5, shutdown: 6 },
    );
    let mut totals = no_totals();
    load_usage(
        &mut totals,
        &vec![
            AgentCache { agent_id: "phone".to_string(), cumulative_usage: 100 },
            AgentCache { agent_id: "gone".to_string(), cumulative_usage: 7 },
        ],
    );
    let kept = save_server_cache(
        &mut binds,
        &vec![(3, 1), (4, 555)],
        &totals,
        &vec![("phone".to_string(), 90), ("new".to_string(), 3)],
    );
    assert_eq!(kept.binds.len(), 1);
    assert_eq!(kept.binds[0].port, 51307);
    assert_eq!(kept.binds[0].usage, 555);
    assert_eq!(kept.binds[0].max_conns, 42);
    assert_eq!(kept.binds[0].user, Some("u".to_string()));
    let totals: Vec<(String, u64)> =
        kept.agent_usage.into_iter().map(|a| (a.agent_id, a.cumulative_usage)).collect();
    assert_eq!(
        totals,
        vec![
            ("gone".to_string(), 7),
            ("new".to_string(), 3),
            ("phone".to_string(), 100)
        ]
    );
}
