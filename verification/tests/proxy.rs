use gateway::proxy::{is_hop_by_hop, json_error_body, target_url, upstream_credential, upstream_failure, ErrorReply};
use gateway::vault::Vault;

#[test]
fn hop_by_hop_headers() {
    for name in ["connection", "keep-alive", "transfer-encoding", "te", "upgrade", "proxy-authorization", "proxy-authenticate"] {
        assert!(is_hop_by_hop(name), "{}", name);
    }
    for name in ["content-type", "authorization", "x-forwarded-for", "tee", ""] {
        assert!(!is_hop_by_hop(name), "{}", name);
    }
}

#[test]
fn error_body_is_json() {
    assert_eq!(json_error_body("server not found"), "{\"error\":\"server not found\"}");
    assert_eq!(json_error_body("a\"b\\c\n"), "{\"error\":\"a\\\"b\\\\c\\n\"}");
    let v: serde_json::Value = serde_json::from_str(&json_error_body("x\u{1}y")).unwrap();
    assert_eq!(v["error"], "x\u{1}y");
}

#[test]
fn target_url_joins_parts() {
    assert_eq!(target_url("http://h:1/", "/tools/list", None), "http://h:1/tools/list");
    assert_eq!(target_url("http://h:1///", "/a", Some("x=1&y=2")), "http://h:1/a?x=1&y=2");
    assert_eq!(target_url("http://h", "/", Some("")), "http://h/?");
}

#[test]
fn upstream_failure_message() {
    assert_eq!(upstream_failure("connection refused"), "upstream unavailable: connection refused");
}

#[test]
fn credential_needs_a_vault() {
    assert_eq!(upstream_credential(None, None), Ok(None));
    assert_eq!(
        upstream_credential(Some(("Authorization", "x")), None),
        Err(ErrorReply { status: 500, message: "vault not initialized".to_string() })
    );
}

#[test]
fn credential_is_unsealed() {
    let vault = Vault::new("m");
    let sealed = vault.encrypt("sk-1");
    assert_eq!(
        upstream_credential(Some(("X-Key", sealed.as_str())), Some(&vault)),
        Ok(Some(("X-Key".to_string(), "sk-1".to_string())))
    );
    assert_eq!(
        upstream_credential(Some(("X-Key", "plain-not-sealed")), Some(&vault)),
        Err(ErrorReply { status: 500, message: "credential decryption failed".to_string() })
    );
    let other = Vault::new("other");
    assert_eq!(
        upstream_credential(Some(("X-Key", sealed.as_str())), Some(&other)),
        Err(ErrorReply { status: 500, message: "credential decryption failed".to_string() })
    );
}

#[test]
fn control_characters_use_lowercase_unicode_escapes() {
    assert_eq!(json_error_body("x\u{1}y"), "{\"error\":\"x\\u0001y\"}");
    assert_eq!(json_error_body("\u{1b}\u{7f}"), "{\"error\":\"\\u001b\u{7f}\"}");
    assert_eq!(json_error_body("\u{8}\t\u{c}\r/é"), "{\"error\":\"\\b\\t\\f\\r/é\"}");
}
