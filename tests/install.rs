use mcp_manager::install::{
    entry_point, installed_descriptor, resolve_name, InstallAction, InstallError, InstallEvent, Installer, Stage,
};
use mcp_manager::registry::{Registry, Transport};

#[test]
fn resolve_name_strips_vcs_suffix() {
    assert_eq!(resolve_name("https://example.com/org/foo-mcp.git").ok().unwrap(), "foo-mcp");
}

#[test]
fn resolve_name_strips_trailing_slash() {
    assert_eq!(resolve_name("https://github.com/excalidraw/excalidraw-mcp/").ok().unwrap(), "excalidraw-mcp");
    assert_eq!(resolve_name("https://example.com/org/foo.git//").ok().unwrap(), "foo");
    assert_eq!(resolve_name("plain").ok().unwrap(), "plain");
}

#[test]
fn resolve_name_rejects_empty_identifier() {
    assert!(matches!(resolve_name(""), Err(InstallError::InvalidSource { .. })));
    assert!(matches!(resolve_name("https://example.com/org/.git"), Err(InstallError::InvalidSource { .. })));
    assert!(matches!(resolve_name("///"), Err(InstallError::InvalidSource { url }) if url == "///"));
}

#[test]
fn entry_point_prefers_built_output() {
    assert_eq!(entry_point("/r/x", false, true, true), "/r/x/dist/index.js");
    assert_eq!(entry_point("/r/x", false, false, true), "/r/x/index.js");
    assert_eq!(entry_point("/r/x", false, false, false), "/r/x/dist/index.js");
    assert_eq!(entry_point("C:\\r\\x", true, false, true), "C:\\r\\x\\index.js");
}

fn run_to_register(build_ok: bool) -> (Installer, InstallAction) {
    let (mut m, a) = Installer::start("https://example.com/org/foo-mcp.git", "/home/u/.mcps", false).ok().unwrap();
    match a {
        InstallAction::PrepareDirectory { root, dir } => {
            assert_eq!(root, "/home/u/.mcps");
            assert_eq!(dir, "/home/u/.mcps/foo-mcp");
        }
        _ => panic!("expected the directory step"),
    }
    let a = m.advance(InstallEvent::StepDone { success: true, diagnostic: String::new() });
    match a {
        InstallAction::Run { program, args, cwd } => {
            assert_eq!(program, "git");
            assert_eq!(args, vec!["clone", "https://example.com/org/foo-mcp.git", "/home/u/.mcps/foo-mcp"]);
            assert!(cwd.is_none());
        }
        _ => panic!("expected the fetch step"),
    }
    let a = m.advance(InstallEvent::StepDone { success: true, diagnostic: String::new() });
    assert!(matches!(a, InstallAction::Run { ref program, ref args, .. } if program == "npm" && args == &vec!["install".to_string()]));
    let a = m.advance(InstallEvent::StepDone { success: true, diagnostic: String::new() });
    assert!(matches!(a, InstallAction::Run { ref args, .. } if args == &vec!["run".to_string(), "build".to_string()]));
    let a = m.advance(InstallEvent::StepDone { success: build_ok, diagnostic: "no build script".to_string() });
    match a {
        InstallAction::CheckEntryFiles { dist, root } => {
            assert_eq!(dist, "/home/u/.mcps/foo-mcp/dist/index.js");
            assert_eq!(root, "/home/u/.mcps/foo-mcp/index.js");
        }
        _ => panic!("expected the entry point step"),
    }
    let a = m.advance(InstallEvent::EntryFiles { dist_exists: false, root_exists: false });
    (m, a)
}

#[test]
fn build_failure_still_registers_enabled_server() {
    let (mut m, a) = run_to_register(false);
    assert_eq!(m.build_warning(), Some("no build script".to_string()));
    match a {
        InstallAction::Register { name, descriptor } => {
            assert_eq!(name, "foo-mcp");
            assert!(descriptor.enabled);
            match descriptor.transport {
                Transport::Stdio { command, args, env } => {
                    assert_eq!(command, "node");
                    assert_eq!(args, vec!["/home/u/.mcps/foo-mcp/dist/index.js", "--stdio"]);
                    assert!(env.is_empty());
                }
                Transport::Remote { .. } => panic!("expected a local server"),
            }
        }
        _ => panic!("expected the register step"),
    }
    let a = m.advance(InstallEvent::StepDone { success: true, diagnostic: String::new() });
    assert!(matches!(a, InstallAction::Finish { outcome: Ok(ref n) } if n == "foo-mcp"));
    assert!(m.stage() == Stage::Installed);
}

#[test]
fn build_success_leaves_no_warning() {
    let (m, _) = run_to_register(true);
    assert_eq!(m.build_warning(), None);
    assert!(m.stage() == Stage::Register);
}

#[test]
fn fetch_failure_stops_pipeline() {
    let (mut m, _) = Installer::start("https://e/x", "/r", false).ok().unwrap();
    m.advance(InstallEvent::StepDone { success: true, diagnostic: String::new() });
    let a = m.advance(InstallEvent::StepDone { success: false, diagnostic: "fatal: not found".to_string() });
    assert!(matches!(a, InstallAction::Finish { outcome: Err(InstallError::FetchFailed { ref diagnostic }) } if diagnostic == "fatal: not found"));
    assert!(m.stage() == Stage::Failed);
    let again = m.advance(InstallEvent::StepDone { success: true, diagnostic: String::new() });
    assert!(matches!(again, InstallAction::Finish { outcome: Err(InstallError::FetchFailed { .. }) }));
}

#[test]
fn dependency_failure_stops_pipeline() {
    let (mut m, _) = Installer::start("https://e/x", "/r", true).ok().unwrap();
    m.advance(InstallEvent::StepDone { success: true, diagnostic: String::new() });
    let a = m.advance(InstallEvent::StepDone { success: true, diagnostic: String::new() });
    assert!(matches!(a, InstallAction::Run { ref program, ref cwd, .. } if program == "npm.cmd" && cwd.as_deref() == Some("/r\\x")));
    let a = m.advance(InstallEvent::StepDone { success: false, diagnostic: "E404".to_string() });
    assert!(matches!(a, InstallAction::Finish { outcome: Err(InstallError::DependencyInstallFailed { ref diagnostic }) } if diagnostic == "E404"));
}

#[test]
fn directory_failure_is_io_error() {
    let (mut m, _) = Installer::start("https://e/x", "/r", false).ok().unwrap();
    let a = m.advance(InstallEvent::StepDone { success: false, diagnostic: "permission denied".to_string() });
    assert!(matches!(a, InstallAction::Finish { outcome: Err(InstallError::Io { ref message }) } if message == "permission denied"));
}

#[test]
fn unexpected_event_repeats_pending_action() {
    let (mut m, _) = Installer::start("https://e/x", "/r", false).ok().unwrap();
    let a = m.advance(InstallEvent::EntryFiles { dist_exists: true, root_exists: true });
    assert!(matches!(a, InstallAction::PrepareDirectory { .. }));
    assert!(m.stage() == Stage::PrepareDirectory);
}

#[test]
fn start_rejects_bad_source() {
    assert!(matches!(Installer::start("https://e/.git", "/r", false), Err(InstallError::InvalidSource { .. })));
}

#[test]
fn install_twice_keeps_one_entry() {
    let mut reg = Registry::new();
    for _ in 0..2 {
        let (m, _) = Installer::start("https://example.com/org/foo-mcp.git", "/r", false).ok().unwrap();
        let name = m.name().clone();
        let entry = entry_point("/r/foo-mcp", false, true, false);
        reg.upsert(name, installed_descriptor(&entry));
    }
    assert_eq!(reg.len(), 1);
    assert_eq!(reg.name_at(0), "foo-mcp");
    assert!(reg.get("foo-mcp").unwrap().enabled);
}

#[test]
fn resolve_name_rejects_dot_segments() {
    assert!(matches!(resolve_name("https://example.com/org/.."), Err(InstallError::InvalidSource { .. })));
    assert!(matches!(resolve_name("https://example.com/."), Err(InstallError::InvalidSource { .. })));
    assert!(matches!(resolve_name("../..git/"), Err(InstallError::InvalidSource { .. })));
    assert_eq!(resolve_name("https://example.com/org/...").ok().unwrap(), "...");
}
