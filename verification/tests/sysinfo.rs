use auric_core::gitview::DiscardAction;
use auric_core::gitview::StatusFlags;
use auric_core::gitview::discard_action;
use auric_core::gitview::git_status_label;
use auric_core::llm::llm_endpoint_url;
use auric_core::llm::resolve_llm_settings;
use auric_core::sysproc::PsEntry;
use auric_core::sysproc::find_descendants;
use auric_core::sysproc::summarize_system_memory;

fn ps(pid: u32, ppid: u32, rss_kb: u64, command: &str) -> PsEntry {
    PsEntry {
        pid,
        ppid,
        rss_kb,
        command: command.to_string(),
    }
}

#[test]
fn test_find_descendants_walks_the_tree() {
    let entries = vec![
        ps(1, 0, 10, "init"),
        ps(100, 1, 20, "app"),
        ps(200, 100, 30, "child"),
        ps(300, 200, 40, "grandchild"),
        ps(400, 1, 50, "unrelated"),
    ];
    let descendants = find_descendants(100, &entries);
    let pids: Vec<u32> = descendants.iter().map(|e| e.pid).collect();
    assert_eq!(pids, vec![200, 300]);
}

#[test]
fn test_find_descendants_ignores_cycles() {
    let entries = vec![ps(2, 3, 1, "a"), ps(3, 2, 1, "b")];
    let descendants = find_descendants(2, &entries);
    let pids: Vec<u32> = descendants.iter().map(|e| e.pid).collect();
    assert_eq!(pids, vec![3]);
}

#[test]
fn test_summarize_system_memory_groups() {
    let entries = vec![
        ps(100, 1, 10, "host-shell"),
        ps(150, 1, 64, "node /srv/.next/server next-server"),
        ps(200, 100, 30, "WebKitWebProcess"),
    ];
    let summary = summarize_system_memory(100, &entries);
    assert_eq!(summary.len(), 3);
    assert_eq!(summary[0].label, "Tauri (Rust)");
    assert_eq!(summary[0].rss_bytes, 10 * 1024);
    assert_eq!(summary[1].label, "Next.js");
    assert_eq!(summary[1].rss_bytes, 64 * 1024);
    assert_eq!(summary[2].label, "WebView (UI)");
    assert_eq!(summary[2].rss_bytes, 30 * 1024);
}

#[test]
fn test_git_status_label_priorities() {
    let base = StatusFlags {
        is_ignored: false,
        is_index_new: false,
        is_index_modified: false,
        is_wt_modified: false,
        is_index_deleted: false,
        is_wt_deleted: false,
        is_wt_new: false,
    };
    assert!(git_status_label(base).is_none());
    assert_eq!(git_status_label(StatusFlags { is_ignored: true, ..base }).as_deref(), Some("ignored"));
    assert_eq!(git_status_label(StatusFlags { is_index_new: true, ..base }).as_deref(), Some("added"));
    assert_eq!(git_status_label(StatusFlags { is_wt_modified: true, ..base }).as_deref(), Some("modified"));
    assert_eq!(git_status_label(StatusFlags { is_index_deleted: true, ..base }).as_deref(), Some("deleted"));
    assert_eq!(git_status_label(StatusFlags { is_wt_new: true, ..base }).as_deref(), Some("untracked"));
    // ignored wins over everything else
    assert_eq!(
        git_status_label(StatusFlags { is_ignored: true, is_wt_new: true, ..base }).as_deref(),
        Some("ignored")
    );
}

#[test]
fn test_discard_action_decision() {
    assert_eq!(discard_action(true, false), DiscardAction::DeleteUntracked);
    assert_eq!(discard_action(true, true), DiscardAction::DeleteUntracked);
    assert_eq!(discard_action(false, true), DiscardAction::UnstageAndDelete);
    assert_eq!(discard_action(false, false), DiscardAction::RestoreFromHead);
}

#[test]
fn test_llm_endpoint_url_normalization() {
    assert_eq!(
        llm_endpoint_url("  https://openrouter.ai/api/v1/  "),
        "https://openrouter.ai/api/v1/chat/completions"
    );
    assert_eq!(
        llm_endpoint_url("https://host/api/chat/completions"),
        "https://host/api/chat/completions"
    );
    assert_eq!(llm_endpoint_url("https://host"), "https://host/chat/completions");
}

#[test]
fn test_resolve_llm_settings_defaults() {
    let st = resolve_llm_settings(None, Some("k".to_string()), None, None).unwrap();
    assert_eq!(st.base_url, "https://openrouter.ai/api/v1");
    assert_eq!(st.api_key, "k");
    assert_eq!(st.model, "moonshotai/kimi-k2-thinking");
    assert!(st.reasoning_enabled);

    let st = resolve_llm_settings(
        Some("https://h".to_string()),
        Some("k".to_string()),
        Some("m".to_string()),
        Some("false".to_string()),
    )
    .unwrap();
    assert_eq!(st.base_url, "https://h");
    assert_eq!(st.model, "m");
    assert!(!st.reasoning_enabled);

    let err = resolve_llm_settings(None, None, None, None);
    assert!(err.is_err());
    assert_eq!(err.err().unwrap(), "LLM API Key not configured");
}

#[test]
fn test_parse_ps_line() {
    let entry = auric_core::sysproc::parse_ps_line("  123  1 2048 /usr/bin/thing --flag  two").unwrap();
    assert_eq!(entry.pid, 123);
    assert_eq!(entry.ppid, 1);
    assert_eq!(entry.rss_kb, 2048);
    assert_eq!(entry.command, "/usr/bin/thing --flag two");
    assert!(auric_core::sysproc::parse_ps_line("123 1 2048").is_none());
    assert!(auric_core::sysproc::parse_ps_line("abc 1 2048 cmd").is_none());
    assert!(auric_core::sysproc::parse_ps_line("").is_none());
}

#[test]
fn test_parse_digits() {
    assert_eq!(auric_core::strutil::parse_u64_digits("0"), Some(0));
    assert_eq!(auric_core::strutil::parse_u64_digits("18446744073709551615"), Some(u64::MAX));
    assert_eq!(auric_core::strutil::parse_u64_digits("18446744073709551616"), None);
    assert_eq!(auric_core::strutil::parse_u64_digits(""), None);
    assert_eq!(auric_core::strutil::parse_u64_digits("12a"), None);
    assert_eq!(auric_core::strutil::parse_u32_digits("4294967295"), Some(u32::MAX));
    assert_eq!(auric_core::strutil::parse_u32_digits("4294967296"), None);
}
