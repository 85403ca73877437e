use nip_proxy::proxy::{
    error_status, on_response, plan_request, rewrite_host, route_host, ProxyConfig, ProxyError,
    ResponseAction,
};
use nip_proxy::upgrade::{connection_lists_upgrade, is_upgrade_token, upgrade_type};

fn config(suffix: &str) -> ProxyConfig {
    ProxyConfig::new("0.0.0.0".to_string(), 8100, "backend".to_string(), 8080, suffix.to_string())
}

#[test]
fn rewrite_concatenates() {
    assert_eq!(rewrite_host("foo.", "example.com"), "foo.example.com");
    assert_eq!(rewrite_host("foo.", ""), "foo.");
}

#[test]
fn route_builds_backend_host() {
    assert_eq!(route_host(Some("foo.1.2.3.4.nip.io"), "example.com"), Ok("foo.example.com".to_string()));
    assert_eq!(route_host(Some("foo.example.com"), "example.com"), Err(ProxyError::HostPatternMismatch));
    assert_eq!(route_host(None, "example.com"), Err(ProxyError::HostPatternMismatch));
}

#[test]
fn plan_for_tenant_host() {
    let c = config("internal");
    let plan = plan_request(&c, Some("tenant.1.2.3.4.nip.io"), None, None).unwrap();
    assert_eq!(plan.host, "tenant.internal");
    assert_eq!(plan.offered, None);
    assert_eq!(c.backend_host, "backend");
    assert_eq!(c.backend_port, 8080);
}

#[test]
fn plan_rejects_unroutable_host() {
    let c = config("internal");
    let e = plan_request(&c, Some("localhost:8100"), Some("upgrade"), Some("websocket")).unwrap_err();
    assert_eq!(e, ProxyError::HostPatternMismatch);
    assert_eq!(error_status(e), 400);
    assert!(plan_request(&c, None, None, None).is_err());
}

#[test]
fn plan_records_offered_upgrade() {
    let c = config("internal");
    let plan = plan_request(&c, Some("ws.1.2.3.4.nip.io:80"), Some("keep-alive, Upgrade"), Some("websocket")).unwrap();
    assert_eq!(plan.host, "ws.internal");
    assert_eq!(plan.offered, Some("websocket".to_string()));
}

#[test]
fn error_statuses() {
    assert_eq!(error_status(ProxyError::HostPatternMismatch), 400);
    assert_eq!(error_status(ProxyError::BackendUnreachable), 502);
    assert_eq!(error_status(ProxyError::BackendRequestFailed), 502);
    assert_eq!(error_status(ProxyError::UpgradeProtocolMismatch), 502);
    assert_eq!(error_status(ProxyError::UpgradeHandoffFailed), 502);
}

#[test]
fn upgrade_token_exact() {
    assert!(is_upgrade_token("upgrade"));
    assert!(!is_upgrade_token("Upgrade"));
    assert!(!is_upgrade_token("upgrades"));
    assert!(!is_upgrade_token(""));
}

#[test]
fn connection_header_fields() {
    assert!(connection_lists_upgrade("upgrade"));
    assert!(connection_lists_upgrade("  UPGRADE  "));
    assert!(connection_lists_upgrade("keep-alive,Upgrade"));
    assert!(connection_lists_upgrade("Upgrade , keep-alive"));
    assert!(!connection_lists_upgrade("keep-alive"));
    assert!(!connection_lists_upgrade("upgrade-insecure"));
    assert!(!connection_lists_upgrade(""));
    assert!(!connection_lists_upgrade("up grade"));
}

#[test]
fn upgrade_type_needs_both_headers() {
    assert_eq!(upgrade_type(Some("Upgrade"), Some("websocket")), Some("websocket".to_string()));
    assert_eq!(upgrade_type(Some("close"), Some("websocket")), None);
    assert_eq!(upgrade_type(None, Some("websocket")), None);
    assert_eq!(upgrade_type(Some("upgrade"), None), None);
}

#[test]
fn response_relayed_without_switch() {
    let ws = Some("websocket".to_string());
    assert_eq!(on_response(&ws, 200, &None, true), ResponseAction::Relay);
    assert_eq!(on_response(&None, 404, &None, false), ResponseAction::Relay);
}

#[test]
fn matching_upgrade_bridges() {
    let ws = Some("websocket".to_string());
    assert_eq!(on_response(&ws, 101, &ws, true), ResponseAction::Bridge);
}

#[test]
fn mismatched_upgrade_rejected() {
    let ws = Some("websocket".to_string());
    let h2 = Some("h2c".to_string());
    let mismatch = ResponseAction::Reject(ProxyError::UpgradeProtocolMismatch);
    assert_eq!(on_response(&ws, 101, &h2, true), mismatch);
    assert_eq!(on_response(&ws, 101, &None, true), mismatch);
    assert_eq!(on_response(&None, 101, &None, true), mismatch);
    assert_eq!(on_response(&ws, 101, &ws, false), mismatch);
}
