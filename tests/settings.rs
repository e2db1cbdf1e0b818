use mcp_manager::settings::{contains, plugin_status, status_from_line, FeishuPluginStatus};

#[test]
fn plugin_status_reads_version_after_at() {
    let out = "Plugins:\n  telegram 1.0.0\n  @m1heng-clawd/FeiShu@0.1.2  \n  feishu-other 9\n";
    let s = plugin_status(out);
    assert_eq!(
        s,
        FeishuPluginStatus {
            installed: true,
            version: Some("0.1.2".to_string()),
            plugin_name: Some("@m1heng-clawd/FeiShu@0.1.2".to_string()),
        }
    );
}

#[test]
fn plugin_status_reads_first_numeric_word() {
    let s = status_from_line("  feishu   enabled 0.3.1 beta");
    assert!(s.installed);
    assert_eq!(s.version, Some("0.3.1".to_string()));
    assert_eq!(s.plugin_name, Some("feishu   enabled 0.3.1 beta".to_string()));
    assert_eq!(status_from_line("feishu v2").version, None);
}

#[test]
fn plugin_status_absent() {
    let s = plugin_status("telegram 1.0\ndiscord 2.0");
    assert_eq!(s, FeishuPluginStatus { installed: false, version: None, plugin_name: None });
    assert!(!plugin_status("").installed);
}

#[test]
fn plugin_status_is_case_insensitive() {
    assert!(plugin_status("FEISHU 1.2").installed);
    assert_eq!(plugin_status("FEISHU 1.2").version, Some("1.2".to_string()));
}

#[test]
fn contains_finds_substrings() {
    assert!(contains("abcfeishuxyz", "feishu"));
    assert!(contains("abc", ""));
    assert!(!contains("fei shu", "feishu"));
    assert!(!contains("", "a"));
}
