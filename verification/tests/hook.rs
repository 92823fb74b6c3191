use interlink::hook::{armed_from_response, block_decision, default_listen_cmd, stop_decision};
use interlink::json::Json;

#[test]
fn block_decision_is_a_block_and_names_the_command() {
    let cmd = default_listen_cmd("ca.pem", "https://localhost:9443", "alice");
    let d = block_decision(&cmd);
    assert_eq!(d.get_str("decision"), Some("block"));
    let reason = d.get_str("reason").unwrap();
    assert!(
        reason.contains(&cmd),
        "reason must embed the re-arm command"
    );
    assert!(reason.contains("lost wakeup"));
}

#[test]
fn default_listen_cmd_targets_the_recv_long_poll() {
    let cmd = default_listen_cmd("/tmp/ca.pem", "https://h:1", "bob");
    assert!(cmd.contains("/recv?me=bob"));
    assert!(cmd.contains("--cacert /tmp/ca.pem"));
    assert_eq!(cmd, "curl -sN --cacert /tmp/ca.pem \"https://h:1/recv?me=bob\"");
}

#[test]
fn stop_is_blocked_only_while_disarmed() {
    assert!(stop_decision(Some(true), "cmd").is_none());
    assert!(stop_decision(None, "cmd").is_none(), "fails open");
    let d = stop_decision(Some(false), "cmd").unwrap();
    assert_eq!(d.get_str("decision"), Some("block"));
}

#[test]
fn armed_only_where_the_bus_says_so() {
    let said = |text: &str| armed_from_response(&Json::parse(text).unwrap());
    assert!(said(r#"{"armed":true}"#));
    assert!(!said(r#"{"armed":false}"#));
    assert!(!said(r#"{"armed":"true"}"#));
    assert!(!said("{}"));
    assert!(!said("[]"));
}
