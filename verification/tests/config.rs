use gateway::config::{Config, GatewayConfig, RateLimitConfig, ServerConfig};
use gateway::vault::Vault;

/// One request, in the billionths that rate-limit settings use.
const ONE: u64 = 1_000_000_000;

fn gateway_config(db_path: Option<String>) -> GatewayConfig {
    GatewayConfig {
        host: "".to_string(),
        port: 8080,
        log_level: "".to_string(),
        rate_limit: RateLimitConfig {
            enabled: false,
            nano_requests_per_second: 10 * ONE,
            nano_burst: 20 * ONE,
        },
        db_path,
    }
}

fn server(name: &str, enabled: bool, api_key: Option<&str>) -> ServerConfig {
    ServerConfig {
        name: name.to_string(),
        url: format!("http://{}.local", name),
        enabled,
        api_key: api_key.map(|k| k.to_string()),
        auth_header: None,
    }
}

#[test]
fn find_server_returns_none_for_unknown() {
    let config = Config {
        gateway: gateway_config(None),
        servers: vec![],
    };
    assert!(config.find_server("nonexistent").is_none());
}

#[test]
fn find_server_returns_first_match() {
    let mut second = server("dup", false, None);
    second.url = "http://second".to_string();
    let config = Config {
        gateway: gateway_config(None),
        servers: vec![server("a", true, None), server("dup", true, None), second],
    };
    let found = config.find_server("dup").unwrap();
    assert_eq!(found.url, "http://dup.local");
    assert!(found.enabled);
    assert!(config.find_server("du").is_none());
    assert!(config.find_server("").is_none());
}

#[test]
fn has_api_keys_detects_any_key() {
    let without = Config {
        gateway: gateway_config(None),
        servers: vec![server("a", true, None)],
    };
    assert!(!without.has_api_keys());
    let with = Config {
        gateway: gateway_config(None),
        servers: vec![server("a", true, None), server("b", true, Some("k"))],
    };
    assert!(with.has_api_keys());
}

#[test]
fn encrypt_api_keys_seals_each_key() {
    let vault = Vault::new("master");
    let mut config = Config {
        gateway: gateway_config(None),
        servers: vec![server("a", true, Some("key-a")), server("b", false, None), server("c", true, Some("key-c"))],
    };
    config.encrypt_api_keys(&vault);
    assert_eq!(config.servers.len(), 3);
    let a = config.servers[0].api_key.clone().unwrap();
    assert_ne!(a, "key-a");
    assert_eq!(vault.decrypt(&a), Ok("key-a".to_string()));
    assert!(config.servers[1].api_key.is_none());
    assert_eq!(vault.decrypt(config.servers[2].api_key.as_ref().unwrap()), Ok("key-c".to_string()));
    assert_eq!(config.servers[2].name, "c");
    assert!(!config.servers[1].enabled);
}

#[test]
fn db_path_defaults_to_mcpgw_db() {
    assert_eq!(gateway_config(None).db_path_or_default(), "mcpgw.db");
    assert_eq!(gateway_config(Some("/data/mcpgw.db".to_string())).db_path_or_default(), "/data/mcpgw.db");
}

#[test]
fn listen_addr_joins_host_and_port() {
    let mut g = gateway_config(None);
    g.host = "127.0.0.1".to_string();
    assert_eq!(g.listen_addr(), "127.0.0.1:8080");
    g.port = 0;
    assert_eq!(g.listen_addr(), "127.0.0.1:0");
    g.port = 65535;
    assert_eq!(g.listen_addr(), "127.0.0.1:65535");
}
