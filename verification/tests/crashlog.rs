use auric_core::crashlog::CrashLogEntry;
use auric_core::crashlog::CrashLogState;
use auric_core::crashlog::crash_dir;
use auric_core::crashlog::crash_file_name;
use auric_core::crashlog::crash_log_name_matches;
use auric_core::crashlog::format_frontend_report;
use auric_core::crashlog::format_panic_report;
use auric_core::crashlog::render_panic_report;
use auric_core::crashlog::set_crash_log_dir;
use auric_core::crashlog::sort_crash_entries;
use auric_core::crashlog::validate_crash_log_filename;
use auric_core::crashlog::FrontendError;

#[test]
fn test_crash_dir_returns_crashes_subdir() {
    let base = "/tmp/logs";
    let result = crash_dir(base);
    assert_eq!(result, "/tmp/logs/crashes");
}

#[test]
fn test_format_panic_report_contains_required_fields() {
    let report = format_panic_report(
        "thread 'main' panicked at 'oops'",
        "stack backtrace: ...",
        "linux",
        "x86_64",
        "0.1.0",
    );
    assert!(report.contains("=== AuricIDE Crash Report ==="));
    assert!(report.contains("Type: rust_panic"));
    assert!(report.contains("Timestamp:"));
    assert!(report.contains("OS:"));
    assert!(report.contains("App Version:"));
    assert!(report.contains("--- Panic Info ---"));
    assert!(report.contains("thread 'main' panicked at 'oops'"));
    assert!(report.contains("--- Backtrace ---"));
}

#[test]
fn test_render_panic_report_exact_layout() {
    let report = render_panic_report("2026-01-02 03:04:05.678 +0000", "linux", "x86_64", "1.2.3", "boom", "bt");
    assert_eq!(
        report,
        "=== AuricIDE Crash Report ===\nType: rust_panic\nTimestamp: 2026-01-02 03:04:05.678 +0000\nOS: linux x86_64\nApp Version: 1.2.3\n\n--- Panic Info ---\nboom\n\n--- Backtrace ---\nbt"
    );
}

#[test]
fn test_format_frontend_report_onerror() {
    let error = FrontendError {
        message: "Cannot read property 'x' of undefined".to_string(),
        source: Some("app.js".to_string()),
        lineno: Some(42),
        colno: Some(10),
        stack: Some("TypeError: Cannot read...\n    at foo (app.js:42:10)".to_string()),
        component_stack: None,
        error_type: "frontend_onerror".to_string(),
    };
    let report = format_frontend_report(&error, "linux", "x86_64", "0.1.0");
    assert!(report.contains("Type: frontend_onerror"));
    assert!(report.contains("Cannot read property 'x' of undefined"));
    assert!(report.contains("Location: app.js:42:10"));
    assert!(report.contains("--- Stack Trace ---"));
    assert!(!report.contains("--- Component Stack ---"));
}

#[test]
fn test_format_frontend_report_react_boundary_with_component_stack() {
    let error = FrontendError {
        message: "Rendering error".to_string(),
        source: None,
        lineno: None,
        colno: None,
        stack: Some("Error: Rendering error\n    at Component".to_string()),
        component_stack: Some("    in BrokenComponent\n    in App".to_string()),
        error_type: "frontend_react_boundary".to_string(),
    };
    let report = format_frontend_report(&error, "linux", "x86_64", "0.1.0");
    assert!(report.contains("Type: frontend_react_boundary"));
    assert!(report.contains("Location: unknown"));
    assert!(report.contains("--- Component Stack ---"));
    assert!(report.contains("in BrokenComponent"));
}

#[test]
fn test_read_crash_log_path_traversal_blocked() {
    assert!(validate_crash_log_filename("../etc/passwd").is_err());
    assert!(validate_crash_log_filename("crash-123/../../secret").is_err());
    assert!(validate_crash_log_filename("not-a-crash.log").is_err());
    assert!(validate_crash_log_filename("crash-12345.log").is_ok());
}

#[test]
fn test_set_crash_log_dir_updates_global() {
    let mut state = CrashLogState { dir: None };
    set_crash_log_dir(&mut state, "/tmp/logs".to_string());
    assert_eq!(state.dir.as_deref(), Some("/tmp/logs"));
}

#[test]
fn test_crash_file_name_layout() {
    assert_eq!(crash_file_name(0), "crash-0.log");
    assert_eq!(crash_file_name(1234567890), "crash-1234567890.log");
}

#[test]
fn test_crash_log_name_matching() {
    assert!(crash_log_name_matches("crash-1000.log"));
    assert!(!crash_log_name_matches("not-a-crash.txt"));
    assert!(!crash_log_name_matches("crash-1000.txt"));
    assert!(!crash_log_name_matches("report-1000.log"));
}

#[test]
fn test_sort_crash_entries_newest_first() {
    let entries = vec![
        CrashLogEntry { filename: "crash-1000.log".to_string(), timestamp: 1000, size_bytes: 3 },
        CrashLogEntry { filename: "crash-3000.log".to_string(), timestamp: 3000, size_bytes: 5 },
        CrashLogEntry { filename: "crash-2000.log".to_string(), timestamp: 2000, size_bytes: 4 },
    ];
    let sorted = sort_crash_entries(entries);
    assert_eq!(sorted.len(), 3);
    assert_eq!(sorted[0].filename, "crash-3000.log");
    assert_eq!(sorted[1].filename, "crash-2000.log");
    assert_eq!(sorted[2].filename, "crash-1000.log");
}
