use mcp_manager::registry::{descriptor_json, parse_descriptor, Registry, ServerDescriptor, StoreError, Transport};

#[test]
fn load_absent_store_is_empty() {
    let reg = Registry::load(None).ok().unwrap();
    assert_eq!(reg.len(), 0);
}

#[test]
fn load_reads_descriptors() {
    let text = r#"{"fs":{"command":"npx","args":["-y","srv \"q\""],"env":{"K":"V"},"url":"","enabled":true},"web":{"command":"","args":[],"env":{},"url":"https://e/mcp","enabled":false}}"#;
    let reg = Registry::load(Some(text)).ok().unwrap();
    assert_eq!(reg.len(), 2);
    assert_eq!(reg.name_at(0), "fs");
    let fs = reg.get("fs").unwrap();
    assert!(fs.enabled);
    match &fs.transport {
        Transport::Stdio { command, args, env } => {
            assert_eq!(command, "npx");
            assert_eq!(args, &vec!["-y".to_string(), "srv \"q\"".to_string()]);
            assert_eq!(env, &vec![("K".to_string(), "V".to_string())]);
        }
        Transport::Remote { .. } => panic!("expected a local server"),
    }
    let web = reg.get("web").unwrap();
    assert!(!web.enabled);
    assert!(matches!(&web.transport, Transport::Remote { url } if url == "https://e/mcp"));
}

#[test]
fn load_round_trips_through_to_json() {
    let text = r#"{"fs":{"command":"npx","args":["-y"],"env":{"K":"V"},"url":"","enabled":true},"web":{"command":"","args":[],"env":{},"url":"https://e/mcp","enabled":false}}"#;
    let reg = Registry::load(Some(text)).ok().unwrap();
    assert_eq!(reg.to_json(), text);
}

#[test]
fn load_missing_fields_take_empty_values() {
    let reg = Registry::load(Some(r#"{"a":{"command":"run"}}"#)).ok().unwrap();
    let a = reg.get("a").unwrap();
    assert!(!a.enabled);
    assert!(matches!(&a.transport, Transport::Stdio { command, args, env } if command == "run" && args.is_empty() && env.is_empty()));
}

#[test]
fn load_malformed_store_is_an_error() {
    assert!(matches!(Registry::load(Some("{oops")), Err(StoreError::Malformed { .. })));
    assert!(matches!(Registry::load(Some("[]")), Err(StoreError::Malformed { .. })));
}

#[test]
fn load_bad_entry_names_it() {
    let text = r#"{"good":{"command":"x"},"bad":{"command":5}}"#;
    match Registry::load(Some(text)) {
        Err(StoreError::BadEntry { name }) => assert_eq!(name, "bad"),
        _ => panic!("expected a bad entry"),
    }
    assert!(matches!(Registry::load(Some(r#"{"b":{"enabled":"yes"}}"#)), Err(StoreError::BadEntry { .. })));
    assert!(matches!(Registry::load(Some(r#"{"b":{"args":[1]}}"#)), Err(StoreError::BadEntry { .. })));
    assert!(matches!(Registry::load(Some(r#"{"b":{"env":{"k":1}}}"#)), Err(StoreError::BadEntry { .. })));
}

#[test]
fn upsert_replaces_in_place_and_remove_deletes() {
    let mut reg = Registry::new();
    reg.upsert("a".to_string(), ServerDescriptor::from_fields("x".to_string(), vec![], vec![], String::new(), true));
    reg.upsert("b".to_string(), ServerDescriptor::from_fields(String::new(), vec![], vec![], "http://u".to_string(), true));
    reg.upsert("a".to_string(), ServerDescriptor::from_fields("y".to_string(), vec![], vec![], String::new(), false));
    assert_eq!(reg.len(), 2);
    assert_eq!(reg.name_at(0), "a");
    assert!(matches!(&reg.get("a").unwrap().transport, Transport::Stdio { command, .. } if command == "y"));
    assert!(matches!(&reg.get("b").unwrap().transport, Transport::Remote { url } if url == "http://u"));
    assert!(reg.remove("a"));
    assert!(!reg.remove("a"));
    assert_eq!(reg.len(), 1);
    assert!(reg.get("a").is_none());
    assert!(!reg.set_enabled("zzz", true));
}

#[test]
fn from_fields_prefers_command_over_url() {
    let d = ServerDescriptor::from_fields("cmd".to_string(), vec![], vec![], "http://u".to_string(), true);
    assert!(matches!(d.transport, Transport::Stdio { .. }));
    let d = ServerDescriptor::from_fields(String::new(), vec![], vec![], String::new(), true);
    assert!(matches!(d.transport, Transport::Stdio { .. }));
}

#[test]
fn descriptor_json_escapes_strings() {
    let d = ServerDescriptor::from_fields("a\"b\\c".to_string(), vec!["x\ny".to_string()], vec![], String::new(), true);
    assert_eq!(
        descriptor_json(&d, true),
        r#"{"command":"a\"b\\c","args":["x\ny"],"env":{},"url":"","enabled":true}"#
    );
    assert_eq!(
        descriptor_json(&d, false),
        r#"{"command":"a\"b\\c","args":["x\ny"],"env":{},"url":""}"#
    );
}

#[test]
fn parse_descriptor_decodes_escapes() {
    let d = parse_descriptor(r#"{"command":"a\"b","args":["\u0041"]}"#).unwrap();
    assert!(matches!(&d.transport, Transport::Stdio { command, args, .. } if command == "a\"b" && args == &vec!["A".to_string()]));
    assert!(parse_descriptor("3").is_none());
}

#[test]
fn upsert_keeps_names_in_order() {
    let mut reg = Registry::new();
    for n in ["m", "b", "z", "a", "b"] {
        reg.upsert(n.to_string(), ServerDescriptor::from_fields(n.to_string(), vec![], vec![], String::new(), true));
    }
    let names: Vec<&str> = (0..reg.len()).map(|i| reg.name_at(i).as_str()).collect();
    assert_eq!(names, vec!["a", "b", "m", "z"]);
    let loaded = Registry::load(Some(r#"{"z":{"command":"1"},"a":{"command":"2"}}"#)).ok().unwrap();
    assert_eq!(loaded.name_at(0), "a");
    assert_eq!(loaded.to_json(), r#"{"a":{"command":"2","args":[],"env":{},"url":"","enabled":false},"z":{"command":"1","args":[],"env":{},"url":"","enabled":false}}"#);
}
