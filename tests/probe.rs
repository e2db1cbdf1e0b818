use mcp_manager::probe::{
    answer_name, classify_http, classify_http_output, classify_local, initialize_request, probe_plan, server_name,
    spawn_failure, split_response, stdio_frame, transport_for_test, ProbePlan, ProbeResult, ProcessState,
};
use mcp_manager::registry::Transport;

#[test]
fn remote_200_with_name_is_reachable() {
    let r = classify_http("200", r#"{"result":{"serverInfo":{"name":"x"}}}"#);
    match r {
        ProbeResult::Reachable { server_name, detail } => {
            assert_eq!(server_name, Some("x".to_string()));
            assert_eq!(detail, "HTTP 200");
        }
        ProbeResult::Unreachable { .. } => panic!("expected reachable"),
    }
}

#[test]
fn remote_500_is_unreachable_with_status() {
    match classify_http("500", "oops") {
        ProbeResult::Unreachable { reason } => {
            assert!(reason.contains("500"));
            assert_eq!(reason, "Server returned HTTP 500");
        }
        ProbeResult::Reachable { .. } => panic!("expected unreachable"),
    }
}

#[test]
fn remote_2xx_without_name_is_reachable() {
    assert!(matches!(classify_http("204", ""), ProbeResult::Reachable { server_name: None, .. }));
    assert!(matches!(classify_http("200", "[1]"), ProbeResult::Reachable { server_name: None, .. }));
}

#[test]
fn remote_event_stream_name() {
    let body = "event: message\r\ndata:data: {\"result\":{\"serverInfo\":{\"name\":\"sse\"}}}\r\n\r\n";
    assert_eq!(answer_name(body), Some("sse".to_string()));
    let body = "data: nope\ndata: {\"result\":{\"serverInfo\":{\"name\":\"second\"}}}";
    assert_eq!(answer_name(body), Some("second".to_string()));
}

#[test]
fn server_name_not_a_string_reads_unknown() {
    assert_eq!(server_name(r#"{"result":{"serverInfo":{"name":5}}}"#), Some("unknown".to_string()));
    assert_eq!(server_name(r#"{"result":{"serverInfo":{}}}"#), None);
    assert_eq!(server_name("not json"), None);
}

#[test]
fn split_response_takes_last_line_as_status() {
    let (status, body) = split_response("{\"a\":1}\nline2\n200\n");
    assert_eq!(status, "200");
    assert_eq!(body, "{\"a\":1}\nline2");
    let (status, body) = split_response("  404 ");
    assert_eq!(status, "404");
    assert_eq!(body, "");
    let (status, _) = split_response("   ");
    assert_eq!(status, "0");
}

#[test]
fn classify_http_output_end_to_end() {
    let out = "{\"result\":{\"serverInfo\":{\"name\":\"srv\"}}}\n200";
    assert!(matches!(classify_http_output(out), ProbeResult::Reachable { server_name: Some(ref n), .. } if n == "srv"));
    assert!(matches!(classify_http_output("\n000"), ProbeResult::Unreachable { ref reason } if reason.contains("000")));
}

#[test]
fn local_exit_zero_is_reachable() {
    let v = classify_local(
        ProcessState::Exited { success: true, status: "exit status: 0".to_string(), stderr: String::new() },
        "node",
        &vec!["a.js".to_string()],
    );
    assert!(!v.kill);
    assert!(matches!(v.result, ProbeResult::Reachable { server_name: None, .. }));
}

#[test]
fn local_exit_nonzero_is_unreachable_with_stderr() {
    let v = classify_local(
        ProcessState::Exited { success: false, status: "exit status: 1".to_string(), stderr: "  boom: missing module\n".to_string() },
        "node",
        &vec![],
    );
    assert!(!v.kill);
    match v.result {
        ProbeResult::Unreachable { reason } => assert_eq!(reason, "Server exited with exit status: 1\nboom: missing module"),
        ProbeResult::Reachable { .. } => panic!("expected unreachable"),
    }
}

#[test]
fn local_still_running_is_reachable_and_killed() {
    let v = classify_local(ProcessState::Running, "npx", &vec!["-y".to_string(), "srv".to_string()]);
    assert!(v.kill);
    match v.result {
        ProbeResult::Reachable { server_name, detail } => {
            assert!(server_name.is_none());
            assert_eq!(detail, "process is running\nCommand: npx -y srv");
        }
        ProbeResult::Unreachable { .. } => panic!("expected reachable"),
    }
}

#[test]
fn local_wait_failure_kills() {
    let v = classify_local(ProcessState::WaitFailed { message: "EINTR".to_string() }, "x", &vec![]);
    assert!(v.kill);
    assert!(matches!(v.result, ProbeResult::Unreachable { ref reason } if reason == "Failed to check process: EINTR"));
}

#[test]
fn spawn_failure_reports_command() {
    let r = spawn_failure("No such file", "nope", &vec!["a".to_string()]);
    assert!(matches!(r, ProbeResult::Unreachable { ref reason } if reason == "Failed to start server: No such file\nCommand: nope a"));
}

#[test]
fn stdio_frame_has_content_length() {
    let msg = initialize_request();
    assert_eq!(msg.len(), 151);
    assert_eq!(stdio_frame(), format!("Content-Length: 151\r\n\r\n{}\n", msg));
    let v: serde_json::Value = serde_json::from_str(&msg).unwrap();
    assert_eq!(v["method"], "initialize");
    assert_eq!(v["params"]["protocolVersion"], "2024-11-05");
}

#[test]
fn probe_plan_dispatches_on_transport() {
    let p = probe_plan(&Transport::Remote { url: "https://h/mcp".to_string() });
    assert!(matches!(p, ProbePlan::Http { ref url, ref body } if url == "https://h/mcp" && body == &initialize_request()));
    let p = probe_plan(&Transport::Stdio { command: "node".to_string(), args: vec!["a".to_string()], env: vec![("K".to_string(), "V".to_string())] });
    assert!(matches!(p, ProbePlan::Spawn { ref command, ref env, ref input, .. } if command == "node" && env.len() == 1 && input == &stdio_frame()));
}

#[test]
fn transport_for_test_reads_request() {
    assert!(matches!(transport_for_test("url", "https://h", None, None), Transport::Remote { ref url } if url == "https://h"));
    assert!(matches!(transport_for_test("stdio", "node", None, None), Transport::Stdio { ref command, ref args, .. } if command == "node" && args.is_empty()));
    assert!(matches!(
        transport_for_test("stdio", "t", Some("npx".to_string()), Some(vec!["-y".to_string()])),
        Transport::Stdio { ref command, ref args, .. } if command == "npx" && args == &vec!["-y".to_string()]
    ));
}
