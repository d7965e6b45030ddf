use auric_core::agents::AgentManager;
use auric_core::agents::AgentStatus;
use auric_core::agents::agent_id_string;
use auric_core::spawn::HostPlatform;
use auric_core::spawn::agent_env_vars;
use auric_core::spawn::agent_session_id;
use auric_core::spawn::project_db_path;
use auric_core::spawn::requested_provider_id;
use auric_core::spawn::shell_invocation;

fn register(m: &mut AgentManager<u32>, name: &str, repo: Option<&str>) -> String {
    let info = m.register_agent(
        name.to_string(),
        "sonnet".to_string(),
        "bolt".to_string(),
        "do stuff".to_string(),
        repo.map(|r| r.to_string()),
        1700000000000,
        7,
    );
    info.id
}

#[test]
fn test_register_agent_builds_running_info() {
    let mut m: AgentManager<u32> = AgentManager::new();
    let info = m.register_agent(
        "Test Agent".to_string(),
        "sonnet".to_string(),
        "bolt".to_string(),
        "do stuff".to_string(),
        Some("/tmp/repo".to_string()),
        1700000000000,
        7,
    );
    assert_eq!(info.id, "agent-1");
    assert_eq!(info.name, "Test Agent");
    assert_eq!(info.model, "sonnet");
    assert_eq!(info.provider, "bolt");
    assert_eq!(info.status, AgentStatus::Running);
    assert_eq!(info.current_task.as_deref(), Some("do stuff"));
    assert_eq!(info.started_at, 1700000000000);
    assert_eq!(info.last_activity_at, Some(1700000000000));
    assert_eq!(info.repo_path.as_deref(), Some("/tmp/repo"));
}

#[test]
fn test_agent_ids_are_unique_and_never_reused() {
    let mut m: AgentManager<u32> = AgentManager::new();
    let a = register(&mut m, "a", None);
    let b = register(&mut m, "b", None);
    assert_ne!(a, b);
    assert!(m.kill_agent(&a).is_ok());
    let c = register(&mut m, "c", None);
    assert_ne!(c, a);
    assert_ne!(c, b);
    assert_eq!(c, "agent-3");
}

#[test]
fn test_list_agents_snapshots_all() {
    let mut m: AgentManager<u32> = AgentManager::new();
    register(&mut m, "a", None);
    register(&mut m, "b", Some("/r"));
    let list = m.list_agents();
    assert_eq!(list.len(), 2);
    assert_eq!(list[0].name, "a");
    assert_eq!(list[1].name, "b");
}

#[test]
fn test_kill_agent_removes_entry_and_reports_idle() {
    let mut m: AgentManager<u32> = AgentManager::new();
    let id = register(&mut m, "a", None);
    let (process, event) = m.kill_agent(&id).unwrap();
    assert_eq!(process.info.id, id);
    assert_eq!(process.child, 7);
    assert_eq!(event.agent_id, id);
    assert_eq!(event.status, AgentStatus::Idle);
    assert!(event.exit_code.is_none());
    assert!(event.repo_path.is_none());
    assert!(m.list_agents().is_empty());
}

#[test]
fn test_kill_agent_unknown_id_fails() {
    let mut m: AgentManager<u32> = AgentManager::new();
    register(&mut m, "a", None);
    let err = match m.kill_agent("agent-99") {
        Err(e) => e,
        Ok(_) => panic!("expected an error for an unknown id"),
    };
    assert_eq!(err, "Agent not found: agent-99");
    assert_eq!(m.list_agents().len(), 1);
}

#[test]
fn test_kill_agents_for_repo_counts_exact_matches_only() {
    let mut m: AgentManager<u32> = AgentManager::new();
    register(&mut m, "a", Some("/repo/one"));
    register(&mut m, "b", Some("/repo/two"));
    register(&mut m, "c", Some("/repo/one"));
    register(&mut m, "d", None);
    let removed = m.remove_agents_for_repo("/repo/one");
    assert_eq!(removed.len(), 2);
    assert_eq!(removed[0].info.name, "a");
    assert_eq!(removed[1].info.name, "c");
    let left = m.list_agents();
    assert_eq!(left.len(), 2);
    assert_eq!(left[0].name, "b");
    assert_eq!(left[1].name, "d");
}

#[test]
fn test_kill_agents_for_repo_no_match_is_zero() {
    let mut m: AgentManager<u32> = AgentManager::new();
    register(&mut m, "a", Some("/repo/one"));
    let removed = m.remove_agents_for_repo("/repo/other");
    assert!(removed.is_empty());
    assert_eq!(m.list_agents().len(), 1);
}

#[test]
fn test_cleanup_all_agents_empties_registry() {
    let mut m: AgentManager<u32> = AgentManager::new();
    register(&mut m, "a", None);
    register(&mut m, "b", None);
    let removed = m.cleanup_all_agents();
    assert_eq!(removed.len(), 2);
    assert!(m.list_agents().is_empty());
    // the counter keeps counting after a shutdown-style clear
    let c = register(&mut m, "c", None);
    assert_eq!(c, "agent-3");
}

#[test]
fn test_agent_id_string_layout() {
    assert_eq!(agent_id_string(1), "agent-1");
    assert_eq!(agent_id_string(42), "agent-42");
    assert_eq!(agent_id_string(1000000), "agent-1000000");
}

#[test]
fn test_shell_invocation_per_platform() {
    let (shell, args) = shell_invocation(HostPlatform::Windows);
    assert_eq!(shell, "cmd");
    assert_eq!(args, vec!["/C".to_string()]);
    let (shell, args) = shell_invocation(HostPlatform::MacOs);
    assert_eq!(shell, "/bin/zsh");
    assert_eq!(args, vec!["-lc".to_string()]);
    let (shell, args) = shell_invocation(HostPlatform::Other);
    assert_eq!(shell, "sh");
    assert_eq!(args, vec!["-c".to_string()]);
}

#[test]
fn test_agent_env_vars_baseline_and_db_path() {
    let provider_env = vec![("FOO".to_string(), "bar".to_string())];
    let env = agent_env_vars(&provider_env, &Some("/work/dir".to_string()));
    assert_eq!(
        env,
        vec![
            ("TERM".to_string(), "xterm-256color".to_string()),
            ("COLORTERM".to_string(), "truecolor".to_string()),
            ("FOO".to_string(), "bar".to_string()),
            ("AURIC_MCP_DB_PATH".to_string(), "/work/dir/.auric/project.db".to_string()),
        ]
    );
    let env = agent_env_vars(&Vec::new(), &None);
    assert_eq!(
        env,
        vec![
            ("TERM".to_string(), "xterm-256color".to_string()),
            ("COLORTERM".to_string(), "truecolor".to_string()),
        ]
    );
}

#[test]
fn test_session_and_db_path_helpers() {
    assert_eq!(agent_session_id("agent-3"), "agent-agent-3");
    assert_eq!(project_db_path("/w"), "/w/.auric/project.db");
    assert_eq!(requested_provider_id(&None), "bolt");
    assert_eq!(requested_provider_id(&Some("gemini".to_string())), "gemini");
}
