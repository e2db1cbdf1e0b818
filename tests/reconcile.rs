use mcp_manager::reconcile::{reconcile_document, reconcile_servers, SyncError};
use mcp_manager::registry::{Registry, ServerDescriptor, Transport};

fn stdio(command: &str, args: &[&str], enabled: bool) -> ServerDescriptor {
    ServerDescriptor {
        transport: Transport::Stdio {
            command: command.to_string(),
            args: args.iter().map(|a| a.to_string()).collect(),
            env: Vec::new(),
        },
        enabled,
    }
}

fn remote(url: &str, enabled: bool) -> ServerDescriptor {
    ServerDescriptor { transport: Transport::Remote { url: url.to_string() }, enabled }
}

fn sample_registry() -> Registry {
    let mut reg = Registry::new();
    reg.upsert("alpha".to_string(), stdio("node", &["a.js"], true));
    reg.upsert("beta".to_string(), stdio("old", &[], false));
    reg.upsert("gamma".to_string(), remote("https://h/mcp", true));
    reg
}

const DOC: &str = r#"{"theme":"dark","mcpServers":{"foreign":{"command":"x","args":[]},"alpha":{"old":true},"beta":{"command":"old"}},"version":2}"#;

#[test]
fn reconcile_projects_enabled_and_drops_disabled() {
    let reg = sample_registry();
    let out = reconcile_document(&reg, Some(DOC)).ok().unwrap();
    assert_eq!(
        out,
        r#"{"theme":"dark","mcpServers":{"foreign":{"command":"x","args":[]},"alpha":{"command":"node","args":["a.js"],"env":{},"url":""},"gamma":{"command":"","args":[],"env":{},"url":"https://h/mcp"}},"version":2}"#
    );
}

#[test]
fn reconcile_twice_is_byte_identical() {
    let reg = sample_registry();
    let first = reconcile_document(&reg, Some(DOC)).ok().unwrap();
    let second = reconcile_document(&reg, Some(first.as_str())).ok().unwrap();
    assert_eq!(first, second);
}

#[test]
fn reconcile_keeps_foreign_entries_for_any_registry() {
    let registries = vec![Registry::new(), sample_registry()];
    for reg in registries {
        let out = reconcile_document(&reg, Some(DOC)).ok().unwrap();
        let v: serde_json::Value = serde_json::from_str(&out).unwrap();
        let before: serde_json::Value = serde_json::from_str(DOC).unwrap();
        assert_eq!(v["mcpServers"]["foreign"], before["mcpServers"]["foreign"]);
        assert_eq!(v["theme"], before["theme"]);
        assert_eq!(v["version"], before["version"]);
    }
}

#[test]
fn disable_then_sync_removes_key_but_keeps_registry_entry() {
    let mut reg = sample_registry();
    let first = reconcile_document(&reg, Some(DOC)).ok().unwrap();
    assert!(first.contains("\"alpha\""));
    assert!(reg.set_enabled("alpha", false));
    let second = reconcile_document(&reg, Some(first.as_str())).ok().unwrap();
    let v: serde_json::Value = serde_json::from_str(&second).unwrap();
    assert!(v["mcpServers"].get("alpha").is_none());
    let kept = reg.get("alpha").unwrap();
    assert!(!kept.enabled);
    assert!(matches!(&kept.transport, Transport::Stdio { command, .. } if command == "node"));
}

#[test]
fn reconcile_absent_store_synthesizes_servers_object() {
    let reg = sample_registry();
    let out = reconcile_document(&reg, None).ok().unwrap();
    assert_eq!(
        out,
        r#"{"mcpServers":{"alpha":{"command":"node","args":["a.js"],"env":{},"url":""},"gamma":{"command":"","args":[],"env":{},"url":"https://h/mcp"}}}"#
    );
}

#[test]
fn reconcile_store_without_servers_member_appends_it() {
    let reg = Registry::new();
    let out = reconcile_document(&reg, Some(r#"{"a":1}"#)).ok().unwrap();
    assert_eq!(out, r#"{"a":1,"mcpServers":{}}"#);
}

#[test]
fn reconcile_malformed_store_is_reported() {
    let reg = sample_registry();
    assert!(matches!(reconcile_document(&reg, Some("{not json")), Err(SyncError::Malformed { .. })));
    assert!(matches!(reconcile_document(&reg, Some("[1,2]")), Err(SyncError::Malformed { .. })));
    assert!(matches!(
        reconcile_document(&reg, Some(r#"{"mcpServers":[1]}"#)),
        Err(SyncError::ServersMalformed { .. })
    ));
}

#[test]
fn reconcile_servers_keeps_order_and_appends_new() {
    let reg = sample_registry();
    let servers = vec![
        ("zeta".to_string(), "1".to_string()),
        ("beta".to_string(), "2".to_string()),
        ("alpha".to_string(), "3".to_string()),
    ];
    let out = reconcile_servers(&reg, &servers);
    let names: Vec<&str> = out.iter().map(|p| p.0.as_str()).collect();
    assert_eq!(names, vec!["zeta", "alpha", "gamma"]);
    assert_eq!(out[0].1, "1");
    assert_eq!(out[1].1, r#"{"command":"node","args":["a.js"],"env":{},"url":""}"#);
}

#[test]
fn reconcile_ignores_registry_insertion_order() {
    let mut forward = Registry::new();
    forward.upsert("alpha".to_string(), stdio("node", &["a.js"], true));
    forward.upsert("beta".to_string(), remote("https://b", true));
    forward.upsert("gamma".to_string(), stdio("g", &[], true));
    let mut backward = Registry::new();
    backward.upsert("gamma".to_string(), stdio("g", &[], true));
    backward.upsert("beta".to_string(), remote("https://b", true));
    backward.upsert("alpha".to_string(), stdio("node", &["a.js"], true));
    let a = reconcile_document(&forward, None).ok().unwrap();
    let b = reconcile_document(&backward, Some("{}")).ok().unwrap();
    assert_eq!(a, b);
    assert_eq!(forward.to_json(), backward.to_json());
    let names: Vec<&str> = (0..backward.len()).map(|i| backward.name_at(i).as_str()).collect();
    assert_eq!(names, vec!["alpha", "beta", "gamma"]);
}

#[test]
fn reconcile_null_servers_member_counts_as_empty() {
    let mut reg = Registry::new();
    reg.upsert("s".to_string(), remote("https://s", true));
    let out = reconcile_document(&reg, Some(r#"{"mcpServers":null,"x":1}"#)).ok().unwrap();
    assert_eq!(out, r#"{"mcpServers":{"s":{"command":"","args":[],"env":{},"url":"https://s"}},"x":1}"#);
}
