use auric_core::crashlog::CrashLogState;
use auric_core::encoding::decode_data_url;
use auric_core::encoding::screenshot_file_name;
use auric_core::fsview::FileEntry;
use auric_core::fsview::count_lines;
use auric_core::fsview::sort_file_entries;
use auric_core::greet;
use auric_core::mcp::ChildProbe;
use auric_core::mcp::McpServerStatus;
use auric_core::mcp::mcp_status_decision;
use auric_core::sessions::TerminalRegistry;
use auric_core::sessions::TerminalSession;

#[test]
fn test_greet() {
    assert_eq!(greet(""), "Hello, World!");
    assert_eq!(greet("Ada"), "Hello, Ada!");
}

#[test]
fn test_decode_data_url_with_prefix() {
    let decoded = decode_data_url("data:image/png;base64,aGVsbG8=").unwrap();
    assert_eq!(decoded, b"hello");
}

#[test]
fn test_decode_data_url_bare_payload() {
    let decoded = decode_data_url("aGk=").unwrap();
    assert_eq!(decoded, b"hi");
}

#[test]
fn test_decode_data_url_invalid_payload_fails() {
    assert!(decode_data_url("data:image/png;base64,!!!").is_err());
}

#[test]
fn test_screenshot_file_name_layout() {
    assert_eq!(screenshot_file_name(99), "screenshot_99.png");
}

#[test]
fn test_count_lines_matches_lines_iterator() {
    for content in ["", "one", "one\n", "one\ntwo", "one\ntwo\n", "\n", "a\r\nb"] {
        assert_eq!(count_lines(content), content.lines().count(), "content: {:?}", content);
    }
}

#[test]
fn test_sort_file_entries_directories_first_then_case_insensitive() {
    let entry = |name: &str, dir: bool| FileEntry {
        name: name.to_string(),
        path: format!("/p/{}", name),
        is_directory: dir,
    };
    let sorted = sort_file_entries(vec![
        entry("zeta", false),
        entry("Alpha", false),
        entry("src", true),
        entry("beta", false),
        entry("Docs", true),
    ]);
    let names: Vec<&str> = sorted.iter().map(|e| e.name.as_str()).collect();
    assert_eq!(names, vec!["Docs", "src", "Alpha", "beta", "zeta"]);
}

#[test]
fn test_mcp_status_decision() {
    let (info, clear) = mcp_status_decision(ChildProbe::StillRunning, 41);
    assert_eq!(info.status, McpServerStatus::Running);
    assert_eq!(info.pid, Some(41));
    assert!(!clear);

    let (info, clear) = mcp_status_decision(ChildProbe::Exited, 41);
    assert_eq!(info.status, McpServerStatus::Stopped);
    assert!(info.pid.is_none());
    assert!(clear);

    let (info, clear) = mcp_status_decision(ChildProbe::NotHeld, 41);
    assert_eq!(info.status, McpServerStatus::Stopped);
    assert!(!clear);

    let (info, clear) = mcp_status_decision(ChildProbe::ProbeFailed, 41);
    assert_eq!(info.status, McpServerStatus::Stopped);
    assert!(clear);
}

#[test]
fn test_terminal_registry_write_failure_policy() {
    let mut reg: TerminalRegistry<u8, u8> = TerminalRegistry::new();
    assert!(!reg.contains("term-1"));
    reg.insert("term-1".to_string(), TerminalSession { writer: Some(1), master: Some(2) });
    reg.insert("term-2".to_string(), TerminalSession { writer: None, master: None });
    assert!(reg.contains("term-1"));
    let s = reg.get("term-1").unwrap();
    assert_eq!(s.writer, Some(1));
    assert_eq!(s.master, Some(2));
    // a failed write is proof of a dead session: the whole entry leaves
    let removed = reg.remove("term-1").unwrap();
    assert_eq!(removed.writer, Some(1));
    assert!(!reg.contains("term-1"));
    assert!(reg.contains("term-2"));
    assert!(reg.remove("term-1").is_none());
}

#[test]
fn test_crash_log_state_default_unset() {
    let state = CrashLogState { dir: None };
    assert!(state.dir.is_none());
}
