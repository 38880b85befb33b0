use gateway::config::{Config, GatewayConfig, RateLimitConfig, ServerConfig};
use gateway::proxy::{ErrorReply, STATUS_SERVICE_UNAVAILABLE};
use gateway::rate_limit::RateLimiter;
use gateway::routes::{admit_request, admit_request_at, client_ip, finish, retry_after_header, split_route, Admission, ForwardPlan};

/// One request, in the billionths that rate-limit settings use.
const ONE: u64 = 1_000_000_000;

fn make_config(servers: Vec<ServerConfig>, rl_enabled: bool, nano_burst: u64) -> (Config, RateLimiter) {
    let rl_config = RateLimitConfig {
        enabled: rl_enabled,
        nano_requests_per_second: 10 * ONE,
        nano_burst,
    };
    let config = Config {
        gateway: GatewayConfig {
            host: "127.0.0.1".to_string(),
            port: 8080,
            log_level: "error".to_string(),
            rate_limit: rl_config,
            db_path: None,
        },
        servers,
    };
    (config, RateLimiter::new(&rl_config))
}

fn reject(status: u16, message: &str) -> Admission {
    Admission::Reject(ErrorReply { status, message: message.to_string() })
}

#[test]
fn unknown_server_is_404() {
    let (config, mut rl) = make_config(vec![], false, 20 * ONE);
    assert_eq!(admit_request(&config, &mut rl, "ghost/tools/list", "127.0.0.1"), reject(404, "server not found"));
    assert_eq!(admit_request(&config, &mut rl, "nonexistent/tools/list", "127.0.0.1"), reject(404, "server not found"));
}

#[test]
fn disabled_server_is_503() {
    let (config, mut rl) = make_config(
        vec![ServerConfig {
            name: "disabled-server".to_string(),
            url: "http://localhost:3001".to_string(),
            enabled: false,
            api_key: None,
            auth_header: None,
        }],
        false,
        20 * ONE,
    );
    assert_eq!(admit_request(&config, &mut rl, "disabled-server/tools/list", "127.0.0.1"), reject(503, "server disabled"));
}

#[test]
fn missing_server_name_is_400() {
    let (config, mut rl) = make_config(vec![], false, 20 * ONE);
    assert_eq!(admit_request(&config, &mut rl, "/tools/list", "127.0.0.1"), reject(400, "missing server name"));
    assert_eq!(admit_request(&config, &mut rl, "", "127.0.0.1"), reject(400, "missing server name"));
}

fn test_server(api_key: Option<&str>, auth_header: Option<&str>) -> ServerConfig {
    ServerConfig {
        name: "test-server".to_string(),
        url: "http://localhost:9999".to_string(),
        enabled: true,
        api_key: api_key.map(|k| k.to_string()),
        auth_header: auth_header.map(|h| h.to_string()),
    }
}

#[test]
fn rate_limited_after_burst_is_429() {
    let (config, mut rl) = make_config(vec![test_server(None, None)], true, 2 * ONE);
    rl.check("127.0.0.1", "test-server");
    rl.check("127.0.0.1", "test-server");
    assert!(matches!(
        admit_request(&config, &mut rl, "test-server/tools/list", "127.0.0.1"),
        Admission::Throttle { retry_after_nanos: Some(_) }
    ));
}

#[test]
fn allowed_request_is_forwarded() {
    let (config, mut rl) = make_config(vec![test_server(Some("sealed"), None)], true, 2 * ONE);
    let expected = ForwardPlan {
        server_name: "test-server".to_string(),
        sub_path: "/tools/list".to_string(),
        upstream: "http://localhost:9999".to_string(),
        auth: Some(("Authorization".to_string(), "sealed".to_string())),
    };
    assert_eq!(admit_request_at(&config, &mut rl, "test-server/tools/list", "1.2.3.4", 0), Admission::Forward(expected));
    let (config, mut rl) = make_config(vec![test_server(None, Some("X-Api-Key"))], false, 0);
    let plan = match admit_request_at(&config, &mut rl, "test-server", "1.2.3.4", 0) {
        Admission::Forward(p) => p,
        other => panic!("unexpected {:?}", other),
    };
    assert_eq!(plan.sub_path, "/");
    assert_eq!(plan.auth, None);
}

#[test]
fn throttle_then_forward_after_refill() {
    let (config, mut rl) = make_config(vec![test_server(None, None)], true, ONE);
    assert!(matches!(admit_request_at(&config, &mut rl, "test-server/x", "c", 0), Admission::Forward(_)));
    assert_eq!(
        admit_request_at(&config, &mut rl, "test-server/x", "c", 0),
        Admission::Throttle { retry_after_nanos: Some(100_000_000) }
    );
    assert!(matches!(admit_request_at(&config, &mut rl, "test-server/x", "c", 100_000_000), Admission::Forward(_)));
}

#[test]
fn split_route_cases() {
    assert_eq!(split_route("srv/tools/list"), ("srv".to_string(), "/tools/list".to_string()));
    assert_eq!(split_route("srv"), ("srv".to_string(), "/".to_string()));
    assert_eq!(split_route("srv/"), ("srv".to_string(), "/".to_string()));
    assert_eq!(split_route("/tools"), ("".to_string(), "/tools".to_string()));
    assert_eq!(split_route("ünï/ç/d"), ("ünï".to_string(), "/ç/d".to_string()));
}

#[test]
fn client_ip_cases() {
    assert_eq!(client_ip(Some(" 10.0.0.1 , 10.0.0.2"), Some("9.9.9.9".to_string())), "10.0.0.1");
    assert_eq!(client_ip(Some("127.0.0.1"), None), "127.0.0.1");
    assert_eq!(client_ip(Some("\t\u{3000}"), None), "");
    assert_eq!(client_ip(None, Some("9.9.9.9".to_string())), "9.9.9.9");
    assert_eq!(client_ip(None, None), "unknown");
}

#[test]
fn retry_after_header_rounds_up() {
    assert_eq!(retry_after_header(Some(1)), "1");
    assert_eq!(retry_after_header(Some(1_000_000_000)), "1");
    assert_eq!(retry_after_header(Some(1_000_000_001)), "2");
    assert_eq!(retry_after_header(Some(0)), "0");
    assert_eq!(retry_after_header(None), "18446744073709551615");
}

fn plan() -> ForwardPlan {
    ForwardPlan {
        server_name: "s".to_string(),
        sub_path: "/p".to_string(),
        upstream: "http://u".to_string(),
        auth: None,
    }
}

#[test]
fn finish_passes_upstream_status_through() {
    let c = finish(plan(), "ip".to_string(), "GET".to_string(), "id".to_string(), "ts".to_string(), 42, Ok(201));
    assert_eq!(c.status, 201);
    assert_eq!(c.body, None);
    assert_eq!(c.entry.status, Some(201));
    assert_eq!(c.entry.latency_ms, Some(42));
    assert_eq!(c.entry.error, None);
    assert_eq!(c.entry.server_name, "s");
    assert_eq!(c.entry.path, "/p");
    assert_eq!(c.entry.client_ip, "ip");
    assert_eq!(c.entry.method, "GET");
}

#[test]
fn finish_turns_connection_failure_into_503() {
    let msg = "upstream unavailable: refused".to_string();
    let c = finish(plan(), "ip".to_string(), "POST".to_string(), "id".to_string(), "ts".to_string(), 7, Err(msg.clone()));
    assert_eq!(c.status, STATUS_SERVICE_UNAVAILABLE);
    assert_eq!(c.body, Some("{\"error\":\"upstream unavailable: refused\"}".to_string()));
    assert_eq!(c.entry.status, None);
    assert_eq!(c.entry.error, Some(msg));
}

#[test]
fn health_body_reports_ok_and_version() {
    let v: serde_json::Value = serde_json::from_str(gateway::routes::HEALTH_BODY).unwrap();
    assert_eq!(v["status"], "ok");
    assert_eq!(v["version"], "0.1.0");
    assert_eq!(gateway::routes::HEALTH_BODY, "{\"status\":\"ok\",\"version\":\"0.1.0\"}");
}

#[test]
fn rejected_requests_leave_the_limiter_alone() {
    let (config, mut rl) = make_config(vec![test_server(None, None)], true, ONE);
    for _ in 0..3 {
        admit_request_at(&config, &mut rl, "ghost/x", "c", 0);
        admit_request_at(&config, &mut rl, "/x", "c", 0);
    }
    // The one token of client "c" is still there for the real server.
    assert!(matches!(admit_request_at(&config, &mut rl, "test-server/x", "c", 0), Admission::Forward(_)));
}
